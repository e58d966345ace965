//! Grammar-level parsing of the token stream and semantic resolution.

pub mod analysis;
pub mod raw;

use crate::lex::command::{
    BpmDefinition, BpmDefinitionV, Creator, CreatorV, CommandTime, EnemySet, EnemyWave,
    MeterDefinition, ProgJudgeBpm, ProgJudgeBpmV, TickResolution, Tutorial, Version, XResolution,
    ClickDefinition,
};
use crate::lex::token::{token_views, Token, TokenStream, TokenV};
use vstd::prelude::*;

verus! {

/// Error raised while parsing the token stream or resolving the model.
#[derive(Clone, Debug, PartialEq, Eq, Hash)]
pub enum ParseError {
    /// A token appeared where the grammar does not allow it.
    SyntaxError(String),
    /// The token stream is grammatical but inconsistent (mismatched group
    /// ids, dangling references, sections with too few points).
    SemanticError(String),
    /// The stream ended while a section still awaited its next command.
    SemanticErrorExpectedCommand(String),
}

/// Spec-level mirror of [`ParseError`].
pub ghost enum ParseErrV {
    SyntaxError(Seq<char>),
    SemanticError(Seq<char>),
    SemanticErrorExpectedCommand(Seq<char>),
}

impl View for ParseError {
    type V = ParseErrV;

    open spec fn view(&self) -> ParseErrV {
        match self {
            ParseError::SyntaxError(m) => ParseErrV::SyntaxError(m@),
            ParseError::SemanticError(m) => ParseErrV::SemanticError(m@),
            ParseError::SemanticErrorExpectedCommand(m) => ParseErrV::SemanticErrorExpectedCommand(
                m@,
            ),
        }
    }
}

/// Lifts a parsing result to its spec-level mirror.
pub open spec fn rp<T: View>(r: Result<T, ParseError>) -> Result<T::V, ParseErrV> {
    match r {
        Ok(t) => Ok(t@),
        Err(e) => Err(e@),
    }
}

/// The decimal digit character for `d`.
pub open spec fn dec_digit(d: int) -> char {
    if d == 0 {
        '0'
    } else if d == 1 {
        '1'
    } else if d == 2 {
        '2'
    } else if d == 3 {
        '3'
    } else if d == 4 {
        '4'
    } else if d == 5 {
        '5'
    } else if d == 6 {
        '6'
    } else if d == 7 {
        '7'
    } else if d == 8 {
        '8'
    } else {
        '9'
    }
}

/// The decimal digit string of a non-negative number.
pub open spec fn dec_str(n: int) -> Seq<char>
    decreases n,
{
    if n < 10 {
        seq![dec_digit(n)]
    } else {
        dec_str(n / 10).push(dec_digit(n % 10))
    }
}

fn digit_str(d: u32) -> (r: &'static str)
    requires
        d < 10,
    ensures
        r@ == seq![dec_digit(d as int)],
{
    proof {
        reveal_strlit("0");
        reveal_strlit("1");
        reveal_strlit("2");
        reveal_strlit("3");
        reveal_strlit("4");
        reveal_strlit("5");
        reveal_strlit("6");
        reveal_strlit("7");
        reveal_strlit("8");
        reveal_strlit("9");
    }
    let r = if d == 0 {
        "0"
    } else if d == 1 {
        "1"
    } else if d == 2 {
        "2"
    } else if d == 3 {
        "3"
    } else if d == 4 {
        "4"
    } else if d == 5 {
        "5"
    } else if d == 6 {
        "6"
    } else if d == 7 {
        "7"
    } else if d == 8 {
        "8"
    } else {
        "9"
    };
    proof {
        assert(r@ =~= seq![dec_digit(d as int)]);
    }
    r
}

/// Formats `n` in decimal, for diagnostic messages.
pub fn u32_to_string(n: u32) -> (r: String)
    ensures
        r@ == dec_str(n as int),
    decreases n,
{
    if n < 10 {
        String::from_str(digit_str(n))
    } else {
        let mut s = u32_to_string(n / 10);
        s.append(digit_str(n % 10));
        proof {
            assert(dec_str((n / 10) as int).push(dec_digit((n % 10) as int)) =~= dec_str(
                (n / 10) as int,
            ) + seq![dec_digit((n % 10) as int)]);
        }
        s
    }
}

/// Builds the diagnostic `prefix` + decimal id.
pub fn message_with_id(prefix: &str, id: u32) -> (r: String)
    ensures
        r@ == prefix@ + dec_str(id as int),
{
    let mut s = String::from_str(prefix);
    let digits = u32_to_string(id);
    s.append(digits.as_str());
    s
}

/// Header information and metadata declared by a chart file. Absent fields
/// stay `None`; the damage values default to the literal `0`.
#[derive(Clone, Debug, PartialEq, Eq, Hash)]
pub struct Header {
    pub version: Option<Version>,
    pub creator: Option<Creator>,
    pub bpm_definition: Option<BpmDefinition>,
    pub meter_definition: Option<MeterDefinition>,
    pub tick_resolution: Option<TickResolution>,
    pub x_resolution: Option<XResolution>,
    pub click_definition: Option<ClickDefinition>,
    pub tutorial: Option<Tutorial>,
    pub damage_values: DamageValues,
    pub totals: Totals,
    pub prog_judge_bpm: Option<ProgJudgeBpm>,
}

pub ghost struct HeaderV {
    pub version: Option<Version>,
    pub creator: Option<CreatorV>,
    pub bpm_definition: Option<BpmDefinitionV>,
    pub meter_definition: Option<MeterDefinition>,
    pub tick_resolution: Option<TickResolution>,
    pub x_resolution: Option<XResolution>,
    pub click_definition: Option<ClickDefinition>,
    pub tutorial: Option<Tutorial>,
    pub damage_values: DamageValuesV,
    pub totals: Totals,
    pub prog_judge_bpm: Option<ProgJudgeBpmV>,
}

impl View for Header {
    type V = HeaderV;

    open spec fn view(&self) -> HeaderV {
        HeaderV {
            version: self.version,
            creator: match self.creator {
                Some(ref c) => Some(c@),
                None => None,
            },
            bpm_definition: match self.bpm_definition {
                Some(ref b) => Some(b@),
                None => None,
            },
            meter_definition: self.meter_definition,
            tick_resolution: self.tick_resolution,
            x_resolution: self.x_resolution,
            click_definition: self.click_definition,
            tutorial: self.tutorial,
            damage_values: self.damage_values@,
            totals: self.totals,
            prog_judge_bpm: match self.prog_judge_bpm {
                Some(ref p) => Some(p@),
                None => None,
            },
        }
    }
}

impl Header {
    /// The header of a chart that declares nothing.
    pub open spec fn empty() -> HeaderV {
        HeaderV {
            version: None,
            creator: None,
            bpm_definition: None,
            meter_definition: None,
            tick_resolution: None,
            x_resolution: None,
            click_definition: None,
            tutorial: None,
            damage_values: DamageValues::empty(),
            totals: Totals::empty(),
            prog_judge_bpm: None,
        }
    }

    pub fn new() -> (r: Self)
        ensures
            r@ == Self::empty(),
    {
        Self {
            version: None,
            creator: None,
            bpm_definition: None,
            meter_definition: None,
            tick_resolution: None,
            x_resolution: None,
            click_definition: None,
            tutorial: None,
            damage_values: DamageValues::new(),
            totals: Totals::new(),
            prog_judge_bpm: None,
        }
    }
}

/// Per-kind damage amounts, carried as floating-point literal texts.
#[derive(Clone, Debug, PartialEq, Eq, Hash)]
pub struct DamageValues {
    pub normal: String,
    pub hard: String,
    pub danger: String,
    pub beam: String,
}

pub ghost struct DamageValuesV {
    pub normal: Seq<char>,
    pub hard: Seq<char>,
    pub danger: Seq<char>,
    pub beam: Seq<char>,
}

impl View for DamageValues {
    type V = DamageValuesV;

    open spec fn view(&self) -> DamageValuesV {
        DamageValuesV {
            normal: self.normal@,
            hard: self.hard@,
            danger: self.danger@,
            beam: self.beam@,
        }
    }
}

impl DamageValues {
    pub open spec fn empty() -> DamageValuesV {
        DamageValuesV { normal: "0"@, hard: "0"@, danger: "0"@, beam: "0"@ }
    }

    pub fn new() -> (r: Self)
        ensures
            r@ == Self::empty(),
    {
        Self {
            normal: String::from_str("0"),
            hard: String::from_str("0"),
            danger: String::from_str("0"),
            beam: String::from_str("0"),
        }
    }
}

/// Declared note counts.
#[derive(Clone, Copy, Debug, PartialEq, Eq, Hash, Default)]
pub struct Totals {
    pub notes: u32,
    pub tap: u32,
    pub hold: u32,
    pub side: u32,
    pub side_hold: u32,
    pub flick: u32,
    pub bell: u32,
}

impl View for Totals {
    type V = Totals;

    open spec fn view(&self) -> Totals {
        *self
    }
}

impl Totals {
    pub open spec fn empty() -> Totals {
        Totals { notes: 0, tap: 0, hold: 0, side: 0, side_hold: 0, flick: 0, bell: 0 }
    }

    pub fn new() -> (r: Self)
        ensures
            r@ == Self::empty(),
    {
        Self { notes: 0, tap: 0, hold: 0, side: 0, side_hold: 0, flick: 0, bell: 0 }
    }
}

/// The measure at which each enemy wave begins.
#[derive(Clone, Copy, Debug, PartialEq, Eq, Hash, Default)]
pub struct EnemyWaveAssignment {
    pub wave_1: CommandTime,
    pub wave_2: CommandTime,
    pub boss: CommandTime,
}

impl View for EnemyWaveAssignment {
    type V = EnemyWaveAssignment;

    open spec fn view(&self) -> EnemyWaveAssignment {
        *self
    }
}

impl EnemyWaveAssignment {
    pub open spec fn empty() -> EnemyWaveAssignment {
        EnemyWaveAssignment {
            wave_1: CommandTime { measure: 0, offset: 0 },
            wave_2: CommandTime { measure: 0, offset: 0 },
            boss: CommandTime { measure: 0, offset: 0 },
        }
    }

    pub fn new() -> (r: Self)
        ensures
            r == Self::empty(),
    {
        Self {
            wave_1: CommandTime { measure: 0, offset: 0 },
            wave_2: CommandTime { measure: 0, offset: 0 },
            boss: CommandTime { measure: 0, offset: 0 },
        }
    }

    /// The assignment after an `EST` command: the named wave's start time is
    /// replaced.
    pub open spec fn updated(self, command: EnemySet) -> EnemyWaveAssignment {
        match command.wave {
            EnemyWave::Wave1 => EnemyWaveAssignment { wave_1: command.time, ..self },
            EnemyWave::Wave2 => EnemyWaveAssignment { wave_2: command.time, ..self },
            EnemyWave::Boss => EnemyWaveAssignment { boss: command.time, ..self },
        }
    }

    pub fn update_from_command(&mut self, command: EnemySet)
        ensures
            *final(self) == old(self).updated(command),
    {
        match command.wave {
            EnemyWave::Wave1 => self.wave_1 = command.time,
            EnemyWave::Wave2 => self.wave_2 = command.time,
            EnemyWave::Boss => self.boss = command.time,
        }
    }
}

/// The queue of commands the raw parser consumes from the front.
pub(crate) struct Commands {
    tokens: Vec<Token>,
}

impl View for Commands {
    type V = Seq<TokenV>;

    closed spec fn view(&self) -> Seq<TokenV> {
        token_views(self.tokens@)
    }
}

impl Commands {
    pub(crate) fn new_from_token_stream(token_stream: TokenStream) -> (r: Self)
        ensures
            r@ == token_stream@,
    {
        Self { tokens: token_stream.into_tokens() }
    }

    /// Consumes and returns the next command, front first.
    pub(crate) fn next_command(&mut self) -> (r: Option<Token>)
        ensures
            old(self)@.len() == 0 ==> r is None && final(self)@ == old(self)@,
            old(self)@.len() > 0 ==> match r {
                Some(t) => t@ == old(self)@[0] && final(self)@ == old(self)@.skip(1),
                None => false,
            },
    {
        if self.tokens.len() == 0 {
            None
        } else {
            let t = self.tokens.remove(0);
            proof {
                assert(token_views(old(self).tokens@.remove(0)) =~= token_views(
                    old(self).tokens@,
                ).skip(1));
            }
            Some(t)
        }
    }

    pub(crate) fn err_semantic(&self, message: &str) -> (r: ParseError)
        ensures
            r@ == ParseErrV::SemanticError(message@),
    {
        ParseError::SemanticError(String::from_str(message))
    }
}

} // verus!
