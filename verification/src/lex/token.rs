//! Command tokens and their decoders.
//!
//! These tokens are not strictly lexical: each one conforms to the syntax of
//! a whole command line. The lexer handles syntax within a single command
//! while the parser handles the grammatical meaning across commands.
//!
//! Every decoder is specified by a pure `st_decode` function on the cursor
//! state, so the whole tokenizer has a denotational description.

use crate::lex::chars::str_eq;
use crate::lex::command::{
    damage_type_of, Bell, BellV, BeamPoint, BpmChange, BpmDefinition, BpmDefinitionV, Btp, Bullet,
    BulletDamage, BulletDamageType, BulletDamageV, BulletPalette, BulletPaletteV, BulletShooter,
    BulletSize, BulletTarget, BulletType, BulletV, ClickDefinition, ClickSound, ColorfulLanePoint,
    CommandTime, Creator, CreatorV, DangerBulletDamage, DangerBulletDamageV, EnemyLanePoint,
    EnemySet, EnemyWave, Flick, FlickDirection, HardBulletDamage, HardBulletDamageV, Hold,
    LaneEvent, LanePoint, MeterChange, MeterDefinition, ObliqueBeamPoint, ProgJudgeBpm,
    ProgJudgeBpmV, Soflan, SoflanV, Tap, TickResolution, TotalBellNotes, TotalFlickNotes,
    TotalHoldNotes, TotalNotes, TotalSideHoldNotes, TotalSideNotes, TotalTapNotes, Tutorial,
    Version, WallPoint, XResolution, BeamDamage, BeamDamageV,
};
use crate::lex::cursor::{
    lemma_token_then_line_ok, st_next_token, st_peek, st_remaining_line, st_remaining_line_ok,
    Cursor, LexSt,
};
use crate::lex::number::{
    is_float_literal, is_float_text, parse_i32, parse_i32_spec, parse_u32, parse_u32_spec,
};
use crate::lex::{expected_err, rv, LexErrV, LexError};
use vstd::prelude::*;

verus! {

/// Reading one raw token: the token text on success, or `ExpectedToken` at
/// the unchanged position when the input is exhausted.
pub open spec fn st_read_word(st: LexSt, message: Seq<char>) -> (Result<Seq<char>, LexErrV>, LexSt) {
    let (t, st2) = st_next_token(st);
    match t {
        Some(w) => (Ok(w), st2),
        None => (Err(expected_err(st, message)), st),
    }
}

/// Reading one token converted to `u32`.
pub open spec fn st_read_u32(st: LexSt, message: Seq<char>) -> (Result<u32, LexErrV>, LexSt) {
    let (t, st2) = st_next_token(st);
    match t {
        Some(w) => match parse_u32_spec(w) {
            Some(v) => (Ok(v), st2),
            None => (Err(expected_err(st2, message)), st2),
        },
        None => (Err(expected_err(st, message)), st),
    }
}

/// Reading one token converted to `i32`.
pub open spec fn st_read_i32(st: LexSt, message: Seq<char>) -> (Result<i32, LexErrV>, LexSt) {
    let (t, st2) = st_next_token(st);
    match t {
        Some(w) => match parse_i32_spec(w) {
            Some(v) => (Ok(v), st2),
            None => (Err(expected_err(st2, message)), st2),
        },
        None => (Err(expected_err(st, message)), st),
    }
}

/// Reading one token checked against the floating-point literal syntax. The
/// validated text itself is the result.
pub open spec fn st_read_float(st: LexSt, message: Seq<char>) -> (Result<Seq<char>, LexErrV>, LexSt) {
    let (t, st2) = st_next_token(st);
    match t {
        Some(w) => if is_float_literal(w) {
            (Ok(w), st2)
        } else {
            (Err(expected_err(st2, message)), st2)
        },
        None => (Err(expected_err(st, message)), st),
    }
}

fn next_token_or<'a>(cursor: &mut Cursor<'a>, message: &'static str) -> (r: Result<
    &'a str,
    LexError,
>)
    requires
        old(cursor).wf(),
    ensures
        final(cursor).wf(),
        final(cursor).st().s == old(cursor).st().s,
        final(cursor).st().pos >= old(cursor).st().pos,
        ({
            let (rs, st2) = st_read_word(old(cursor).st(), message@);
            final(cursor).st() == st2 && rv(r) == rs
        }),
{
    match cursor.next_token() {
        Some(t) => Ok(t),
        None => Err(cursor.err_expected_token(message)),
    }
}

fn next_token_u32_or(cursor: &mut Cursor, message: &'static str) -> (r: Result<u32, LexError>)
    requires
        old(cursor).wf(),
    ensures
        final(cursor).wf(),
        final(cursor).st().s == old(cursor).st().s,
        final(cursor).st().pos >= old(cursor).st().pos,
        ({
            let (rs, st2) = st_read_u32(old(cursor).st(), message@);
            final(cursor).st() == st2 && rv(r) == rs
        }),
{
    match cursor.next_token() {
        Some(t) => match parse_u32(t) {
            Some(v) => Ok(v),
            None => Err(cursor.err_expected_token(message)),
        },
        None => Err(cursor.err_expected_token(message)),
    }
}

fn next_token_i32_or(cursor: &mut Cursor, message: &'static str) -> (r: Result<i32, LexError>)
    requires
        old(cursor).wf(),
    ensures
        final(cursor).wf(),
        final(cursor).st().s == old(cursor).st().s,
        final(cursor).st().pos >= old(cursor).st().pos,
        ({
            let (rs, st2) = st_read_i32(old(cursor).st(), message@);
            final(cursor).st() == st2 && rv(r) == rs
        }),
{
    match cursor.next_token() {
        Some(t) => match parse_i32(t) {
            Some(v) => Ok(v),
            None => Err(cursor.err_expected_token(message)),
        },
        None => Err(cursor.err_expected_token(message)),
    }
}

/// Reads a token that the chart format treats as a floating-point number and
/// keeps its validated literal text.
fn next_token_f32_or(cursor: &mut Cursor, message: &'static str) -> (r: Result<String, LexError>)
    requires
        old(cursor).wf(),
    ensures
        final(cursor).wf(),
        final(cursor).st().s == old(cursor).st().s,
        final(cursor).st().pos >= old(cursor).st().pos,
        ({
            let (rs, st2) = st_read_float(old(cursor).st(), message@);
            final(cursor).st() == st2 && rv(r) == rs
        }),
{
    match cursor.next_token() {
        Some(t) => if is_float_text(t) {
            Ok(String::from_str(t))
        } else {
            Err(cursor.err_expected_token(message))
        },
        None => Err(cursor.err_expected_token(message)),
    }
}

impl Version {
    pub open spec fn st_decode(st: LexSt) -> (Result<Version, LexErrV>, LexSt) {
        let (r1, st1) = st_read_u32(st, "Version major"@);
        match r1 {
            Err(e) => (Err(e), st1),
            Ok(major) => {
                let (r2, st2) = st_read_u32(st1, "Version minor"@);
                match r2 {
                    Err(e) => (Err(e), st2),
                    Ok(minor) => {
                        let (r3, st3) = st_read_u32(st2, "Version release"@);
                        match r3 {
                            Err(e) => (Err(e), st3),
                            Ok(release) => (Ok(Version { major, minor, release }), st3),
                        }
                    },
                }
            },
        }
    }

    pub(crate) fn from_cursor(cursor: &mut Cursor) -> (r: Result<Self, LexError>)
        requires
            old(cursor).wf(),
        ensures
            final(cursor).wf(),
            final(cursor).st().s == old(cursor).st().s,
            final(cursor).st().s == old(cursor).st().s,
        final(cursor).st().pos >= old(cursor).st().pos,
            ({
                let (rs, st2) = Self::st_decode(old(cursor).st());
                final(cursor).st() == st2 && rv(r) == rs
            }),
    {
        let major = match next_token_u32_or(cursor, "Version major") {
            Ok(v) => v,
            Err(e) => {
                return Err(e);
            },
        };
        let minor = match next_token_u32_or(cursor, "Version minor") {
            Ok(v) => v,
            Err(e) => {
                return Err(e);
            },
        };
        let release = match next_token_u32_or(cursor, "Version release") {
            Ok(v) => v,
            Err(e) => {
                return Err(e);
            },
        };
        Ok(Self { major, minor, release })
    }
}

impl Creator {
    pub open spec fn st_decode(st: LexSt) -> (Result<CreatorV, LexErrV>, LexSt) {
        let (name, st2) = st_remaining_line(st);
        (Ok(CreatorV { name }), st2)
    }

    pub(crate) fn from_cursor(cursor: &mut Cursor) -> (r: Result<Self, LexError>)
        requires
            old(cursor).wf(),
            st_remaining_line_ok(old(cursor).st()),
        ensures
            final(cursor).wf(),
            final(cursor).st().s == old(cursor).st().s,
            final(cursor).st().s == old(cursor).st().s,
        final(cursor).st().pos >= old(cursor).st().pos,
            ({
                let (rs, st2) = Self::st_decode(old(cursor).st());
                final(cursor).st() == st2 && rv(r) == rs
            }),
    {
        let name = cursor.current_remaining_line();
        Ok(Self { name: String::from_str(name) })
    }
}

impl BpmDefinition {
    pub open spec fn st_decode(st: LexSt) -> (Result<BpmDefinitionV, LexErrV>, LexSt) {
        let (r1, st1) = st_read_float(st, "Bpm first"@);
        match r1 {
            Err(e) => (Err(e), st1),
            Ok(first) => {
                let (r2, st2) = st_read_float(st1, "Bpm common"@);
                match r2 {
                    Err(e) => (Err(e), st2),
                    Ok(common) => {
                        let (r3, st3) = st_read_float(st2, "Bpm minimum"@);
                        match r3 {
                            Err(e) => (Err(e), st3),
                            Ok(minimum) => {
                                let (r4, st4) = st_read_float(st3, "Bpm maximum"@);
                                match r4 {
                                    Err(e) => (Err(e), st4),
                                    Ok(maximum) => (
                                        Ok(BpmDefinitionV { first, common, minimum, maximum }),
                                        st4,
                                    ),
                                }
                            },
                        }
                    },
                }
            },
        }
    }

    pub(crate) fn from_cursor(cursor: &mut Cursor) -> (r: Result<Self, LexError>)
        requires
            old(cursor).wf(),
        ensures
            final(cursor).wf(),
            final(cursor).st().s == old(cursor).st().s,
            final(cursor).st().s == old(cursor).st().s,
        final(cursor).st().pos >= old(cursor).st().pos,
            ({
                let (rs, st2) = Self::st_decode(old(cursor).st());
                final(cursor).st() == st2 && rv(r) == rs
            }),
    {
        let first = match next_token_f32_or(cursor, "Bpm first") {
            Ok(v) => v,
            Err(e) => {
                return Err(e);
            },
        };
        let common = match next_token_f32_or(cursor, "Bpm common") {
            Ok(v) => v,
            Err(e) => {
                return Err(e);
            },
        };
        let minimum = match next_token_f32_or(cursor, "Bpm minimum") {
            Ok(v) => v,
            Err(e) => {
                return Err(e);
            },
        };
        let maximum = match next_token_f32_or(cursor, "Bpm maximum") {
            Ok(v) => v,
            Err(e) => {
                return Err(e);
            },
        };
        Ok(Self { first, common, minimum, maximum })
    }
}

impl MeterDefinition {
    pub open spec fn st_decode(st: LexSt) -> (Result<MeterDefinition, LexErrV>, LexSt) {
        let (r1, st1) = st_read_u32(st, "MeterDefinition num_beats"@);
        match r1 {
            Err(e) => (Err(e), st1),
            Ok(num_beats) => {
                let (r2, st2) = st_read_u32(st1, "MeterDefinition note_value"@);
                match r2 {
                    Err(e) => (Err(e), st2),
                    Ok(note_value) => (Ok(MeterDefinition { num_beats, note_value }), st2),
                }
            },
        }
    }

    pub(crate) fn from_cursor(cursor: &mut Cursor) -> (r: Result<Self, LexError>)
        requires
            old(cursor).wf(),
        ensures
            final(cursor).wf(),
            final(cursor).st().s == old(cursor).st().s,
            final(cursor).st().s == old(cursor).st().s,
        final(cursor).st().pos >= old(cursor).st().pos,
            ({
                let (rs, st2) = Self::st_decode(old(cursor).st());
                final(cursor).st() == st2 && rv(r) == rs
            }),
    {
        let num_beats = match next_token_u32_or(cursor, "MeterDefinition num_beats") {
            Ok(v) => v,
            Err(e) => {
                return Err(e);
            },
        };
        let note_value = match next_token_u32_or(cursor, "MeterDefinition note_value") {
            Ok(v) => v,
            Err(e) => {
                return Err(e);
            },
        };
        Ok(Self { num_beats, note_value })
    }
}

impl TickResolution {
    pub open spec fn st_decode(st: LexSt) -> (Result<TickResolution, LexErrV>, LexSt) {
        let (r1, st1) = st_read_u32(st, "TickResolution resolution"@);
        match r1 {
            Err(e) => (Err(e), st1),
            Ok(resolution) => (Ok(TickResolution { resolution }), st1),
        }
    }

    pub(crate) fn from_cursor(cursor: &mut Cursor) -> (r: Result<Self, LexError>)
        requires
            old(cursor).wf(),
        ensures
            final(cursor).wf(),
            final(cursor).st().s == old(cursor).st().s,
            final(cursor).st().s == old(cursor).st().s,
        final(cursor).st().pos >= old(cursor).st().pos,
            ({
                let (rs, st2) = Self::st_decode(old(cursor).st());
                final(cursor).st() == st2 && rv(r) == rs
            }),
    {
        let resolution = match next_token_u32_or(cursor, "TickResolution resolution") {
            Ok(v) => v,
            Err(e) => {
                return Err(e);
            },
        };
        Ok(Self { resolution })
    }
}

impl XResolution {
    pub open spec fn st_decode(st: LexSt) -> (Result<XResolution, LexErrV>, LexSt) {
        let (r1, st1) = st_read_u32(st, "XResolution resolution"@);
        match r1 {
            Err(e) => (Err(e), st1),
            Ok(resolution) => (Ok(XResolution { resolution }), st1),
        }
    }

    pub(crate) fn from_cursor(cursor: &mut Cursor) -> (r: Result<Self, LexError>)
        requires
            old(cursor).wf(),
        ensures
            final(cursor).wf(),
            final(cursor).st().s == old(cursor).st().s,
            final(cursor).st().s == old(cursor).st().s,
        final(cursor).st().pos >= old(cursor).st().pos,
            ({
                let (rs, st2) = Self::st_decode(old(cursor).st());
                final(cursor).st() == st2 && rv(r) == rs
            }),
    {
        let resolution = match next_token_u32_or(cursor, "XResolution resolution") {
            Ok(v) => v,
            Err(e) => {
                return Err(e);
            },
        };
        Ok(Self { resolution })
    }
}

impl ClickDefinition {
    pub open spec fn st_decode(st: LexSt) -> (Result<ClickDefinition, LexErrV>, LexSt) {
        let (r1, st1) = st_read_u32(st, "ClickDefinition value"@);
        match r1 {
            Err(e) => (Err(e), st1),
            Ok(value) => (Ok(ClickDefinition { value }), st1),
        }
    }

    pub(crate) fn from_cursor(cursor: &mut Cursor) -> (r: Result<Self, LexError>)
        requires
            old(cursor).wf(),
        ensures
            final(cursor).wf(),
            final(cursor).st().s == old(cursor).st().s,
            final(cursor).st().s == old(cursor).st().s,
        final(cursor).st().pos >= old(cursor).st().pos,
            ({
                let (rs, st2) = Self::st_decode(old(cursor).st());
                final(cursor).st() == st2 && rv(r) == rs
            }),
    {
        let value = match next_token_u32_or(cursor, "ClickDefinition value") {
            Ok(v) => v,
            Err(e) => {
                return Err(e);
            },
        };
        Ok(Self { value })
    }
}

impl Tutorial {
    pub open spec fn st_decode(st: LexSt) -> (Result<Tutorial, LexErrV>, LexSt) {
        let (r1, st1) = st_read_u32(st, "Tutorial value"@);
        match r1 {
            Err(e) => (Err(e), st1),
            Ok(value) => (Ok(Tutorial { value }), st1),
        }
    }

    pub(crate) fn from_cursor(cursor: &mut Cursor) -> (r: Result<Self, LexError>)
        requires
            old(cursor).wf(),
        ensures
            final(cursor).wf(),
            final(cursor).st().s == old(cursor).st().s,
            final(cursor).st().s == old(cursor).st().s,
        final(cursor).st().pos >= old(cursor).st().pos,
            ({
                let (rs, st2) = Self::st_decode(old(cursor).st());
                final(cursor).st() == st2 && rv(r) == rs
            }),
    {
        let value = match next_token_u32_or(cursor, "Tutorial value") {
            Ok(v) => v,
            Err(e) => {
                return Err(e);
            },
        };
        Ok(Self { value })
    }
}

impl BulletDamage {
    pub open spec fn st_decode(st: LexSt) -> (Result<BulletDamageV, LexErrV>, LexSt) {
        let (r1, st1) = st_read_float(st, "BulletDamage damage"@);
        match r1 {
            Err(e) => (Err(e), st1),
            Ok(damage) => (Ok(BulletDamageV { damage }), st1),
        }
    }

    pub(crate) fn from_cursor(cursor: &mut Cursor) -> (r: Result<Self, LexError>)
        requires
            old(cursor).wf(),
        ensures
            final(cursor).wf(),
            final(cursor).st().s == old(cursor).st().s,
            final(cursor).st().s == old(cursor).st().s,
        final(cursor).st().pos >= old(cursor).st().pos,
            ({
                let (rs, st2) = Self::st_decode(old(cursor).st());
                final(cursor).st() == st2 && rv(r) == rs
            }),
    {
        let damage = match next_token_f32_or(cursor, "BulletDamage damage") {
            Ok(v) => v,
            Err(e) => {
                return Err(e);
            },
        };
        Ok(Self { damage })
    }
}

impl HardBulletDamage {
    pub open spec fn st_decode(st: LexSt) -> (Result<HardBulletDamageV, LexErrV>, LexSt) {
        let (r1, st1) = st_read_float(st, "HardBulletDamage damage"@);
        match r1 {
            Err(e) => (Err(e), st1),
            Ok(damage) => (Ok(HardBulletDamageV { damage }), st1),
        }
    }

    pub(crate) fn from_cursor(cursor: &mut Cursor) -> (r: Result<Self, LexError>)
        requires
            old(cursor).wf(),
        ensures
            final(cursor).wf(),
            final(cursor).st().s == old(cursor).st().s,
            final(cursor).st().s == old(cursor).st().s,
        final(cursor).st().pos >= old(cursor).st().pos,
            ({
                let (rs, st2) = Self::st_decode(old(cursor).st());
                final(cursor).st() == st2 && rv(r) == rs
            }),
    {
        let damage = match next_token_f32_or(cursor, "HardBulletDamage damage") {
            Ok(v) => v,
            Err(e) => {
                return Err(e);
            },
        };
        Ok(Self { damage })
    }
}

impl DangerBulletDamage {
    pub open spec fn st_decode(st: LexSt) -> (Result<DangerBulletDamageV, LexErrV>, LexSt) {
        let (r1, st1) = st_read_float(st, "DangerBulletDamage damage"@);
        match r1 {
            Err(e) => (Err(e), st1),
            Ok(damage) => (Ok(DangerBulletDamageV { damage }), st1),
        }
    }

    pub(crate) fn from_cursor(cursor: &mut Cursor) -> (r: Result<Self, LexError>)
        requires
            old(cursor).wf(),
        ensures
            final(cursor).wf(),
            final(cursor).st().s == old(cursor).st().s,
            final(cursor).st().s == old(cursor).st().s,
        final(cursor).st().pos >= old(cursor).st().pos,
            ({
                let (rs, st2) = Self::st_decode(old(cursor).st());
                final(cursor).st() == st2 && rv(r) == rs
            }),
    {
        let damage = match next_token_f32_or(cursor, "DangerBulletDamage damage") {
            Ok(v) => v,
            Err(e) => {
                return Err(e);
            },
        };
        Ok(Self { damage })
    }
}

impl BeamDamage {
    pub open spec fn st_decode(st: LexSt) -> (Result<BeamDamageV, LexErrV>, LexSt) {
        let (r1, st1) = st_read_float(st, "BeamDamage damage"@);
        match r1 {
            Err(e) => (Err(e), st1),
            Ok(damage) => (Ok(BeamDamageV { damage }), st1),
        }
    }

    pub(crate) fn from_cursor(cursor: &mut Cursor) -> (r: Result<Self, LexError>)
        requires
            old(cursor).wf(),
        ensures
            final(cursor).wf(),
            final(cursor).st().s == old(cursor).st().s,
            final(cursor).st().s == old(cursor).st().s,
        final(cursor).st().pos >= old(cursor).st().pos,
            ({
                let (rs, st2) = Self::st_decode(old(cursor).st());
                final(cursor).st() == st2 && rv(r) == rs
            }),
    {
        let damage = match next_token_f32_or(cursor, "BeamDamage damage") {
            Ok(v) => v,
            Err(e) => {
                return Err(e);
            },
        };
        Ok(Self { damage })
    }
}

impl TotalNotes {
    pub open spec fn st_decode(st: LexSt) -> (Result<TotalNotes, LexErrV>, LexSt) {
        let (r1, st1) = st_read_u32(st, "TotalNotes value"@);
        match r1 {
            Err(e) => (Err(e), st1),
            Ok(value) => (Ok(TotalNotes { value }), st1),
        }
    }

    pub(crate) fn from_cursor(cursor: &mut Cursor) -> (r: Result<Self, LexError>)
        requires
            old(cursor).wf(),
        ensures
            final(cursor).wf(),
            final(cursor).st().s == old(cursor).st().s,
            final(cursor).st().s == old(cursor).st().s,
        final(cursor).st().pos >= old(cursor).st().pos,
            ({
                let (rs, st2) = Self::st_decode(old(cursor).st());
                final(cursor).st() == st2 && rv(r) == rs
            }),
    {
        let value = match next_token_u32_or(cursor, "TotalNotes value") {
            Ok(v) => v,
            Err(e) => {
                return Err(e);
            },
        };
        Ok(Self { value })
    }
}

impl TotalTapNotes {
    pub open spec fn st_decode(st: LexSt) -> (Result<TotalTapNotes, LexErrV>, LexSt) {
        let (r1, st1) = st_read_u32(st, "TotalTapNotes value"@);
        match r1 {
            Err(e) => (Err(e), st1),
            Ok(value) => (Ok(TotalTapNotes { value }), st1),
        }
    }

    pub(crate) fn from_cursor(cursor: &mut Cursor) -> (r: Result<Self, LexError>)
        requires
            old(cursor).wf(),
        ensures
            final(cursor).wf(),
            final(cursor).st().s == old(cursor).st().s,
            final(cursor).st().s == old(cursor).st().s,
        final(cursor).st().pos >= old(cursor).st().pos,
            ({
                let (rs, st2) = Self::st_decode(old(cursor).st());
                final(cursor).st() == st2 && rv(r) == rs
            }),
    {
        let value = match next_token_u32_or(cursor, "TotalTapNotes value") {
            Ok(v) => v,
            Err(e) => {
                return Err(e);
            },
        };
        Ok(Self { value })
    }
}

impl TotalHoldNotes {
    pub open spec fn st_decode(st: LexSt) -> (Result<TotalHoldNotes, LexErrV>, LexSt) {
        let (r1, st1) = st_read_u32(st, "TotalHoldNotes value"@);
        match r1 {
            Err(e) => (Err(e), st1),
            Ok(value) => (Ok(TotalHoldNotes { value }), st1),
        }
    }

    pub(crate) fn from_cursor(cursor: &mut Cursor) -> (r: Result<Self, LexError>)
        requires
            old(cursor).wf(),
        ensures
            final(cursor).wf(),
            final(cursor).st().s == old(cursor).st().s,
            final(cursor).st().s == old(cursor).st().s,
        final(cursor).st().pos >= old(cursor).st().pos,
            ({
                let (rs, st2) = Self::st_decode(old(cursor).st());
                final(cursor).st() == st2 && rv(r) == rs
            }),
    {
        let value = match next_token_u32_or(cursor, "TotalHoldNotes value") {
            Ok(v) => v,
            Err(e) => {
                return Err(e);
            },
        };
        Ok(Self { value })
    }
}

impl TotalSideNotes {
    pub open spec fn st_decode(st: LexSt) -> (Result<TotalSideNotes, LexErrV>, LexSt) {
        let (r1, st1) = st_read_u32(st, "TotalSideNotes value"@);
        match r1 {
            Err(e) => (Err(e), st1),
            Ok(value) => (Ok(TotalSideNotes { value }), st1),
        }
    }

    pub(crate) fn from_cursor(cursor: &mut Cursor) -> (r: Result<Self, LexError>)
        requires
            old(cursor).wf(),
        ensures
            final(cursor).wf(),
            final(cursor).st().s == old(cursor).st().s,
            final(cursor).st().s == old(cursor).st().s,
        final(cursor).st().pos >= old(cursor).st().pos,
            ({
                let (rs, st2) = Self::st_decode(old(cursor).st());
                final(cursor).st() == st2 && rv(r) == rs
            }),
    {
        let value = match next_token_u32_or(cursor, "TotalSideNotes value") {
            Ok(v) => v,
            Err(e) => {
                return Err(e);
            },
        };
        Ok(Self { value })
    }
}

impl TotalSideHoldNotes {
    pub open spec fn st_decode(st: LexSt) -> (Result<TotalSideHoldNotes, LexErrV>, LexSt) {
        let (r1, st1) = st_read_u32(st, "TotalSideHoldNotes value"@);
        match r1 {
            Err(e) => (Err(e), st1),
            Ok(value) => (Ok(TotalSideHoldNotes { value }), st1),
        }
    }

    pub(crate) fn from_cursor(cursor: &mut Cursor) -> (r: Result<Self, LexError>)
        requires
            old(cursor).wf(),
        ensures
            final(cursor).wf(),
            final(cursor).st().s == old(cursor).st().s,
            final(cursor).st().s == old(cursor).st().s,
        final(cursor).st().pos >= old(cursor).st().pos,
            ({
                let (rs, st2) = Self::st_decode(old(cursor).st());
                final(cursor).st() == st2 && rv(r) == rs
            }),
    {
        let value = match next_token_u32_or(cursor, "TotalSideHoldNotes value") {
            Ok(v) => v,
            Err(e) => {
                return Err(e);
            },
        };
        Ok(Self { value })
    }
}

impl TotalFlickNotes {
    pub open spec fn st_decode(st: LexSt) -> (Result<TotalFlickNotes, LexErrV>, LexSt) {
        let (r1, st1) = st_read_u32(st, "TotalFlickNotes value"@);
        match r1 {
            Err(e) => (Err(e), st1),
            Ok(value) => (Ok(TotalFlickNotes { value }), st1),
        }
    }

    pub(crate) fn from_cursor(cursor: &mut Cursor) -> (r: Result<Self, LexError>)
        requires
            old(cursor).wf(),
        ensures
            final(cursor).wf(),
            final(cursor).st().s == old(cursor).st().s,
            final(cursor).st().s == old(cursor).st().s,
        final(cursor).st().pos >= old(cursor).st().pos,
            ({
                let (rs, st2) = Self::st_decode(old(cursor).st());
                final(cursor).st() == st2 && rv(r) == rs
            }),
    {
        let value = match next_token_u32_or(cursor, "TotalFlickNotes value") {
            Ok(v) => v,
            Err(e) => {
                return Err(e);
            },
        };
        Ok(Self { value })
    }
}

impl TotalBellNotes {
    pub open spec fn st_decode(st: LexSt) -> (Result<TotalBellNotes, LexErrV>, LexSt) {
        let (r1, st1) = st_read_u32(st, "TotalBellNotes value"@);
        match r1 {
            Err(e) => (Err(e), st1),
            Ok(value) => (Ok(TotalBellNotes { value }), st1),
        }
    }

    pub(crate) fn from_cursor(cursor: &mut Cursor) -> (r: Result<Self, LexError>)
        requires
            old(cursor).wf(),
        ensures
            final(cursor).wf(),
            final(cursor).st().s == old(cursor).st().s,
            final(cursor).st().s == old(cursor).st().s,
        final(cursor).st().pos >= old(cursor).st().pos,
            ({
                let (rs, st2) = Self::st_decode(old(cursor).st());
                final(cursor).st() == st2 && rv(r) == rs
            }),
    {
        let value = match next_token_u32_or(cursor, "TotalBellNotes value") {
            Ok(v) => v,
            Err(e) => {
                return Err(e);
            },
        };
        Ok(Self { value })
    }
}

impl ProgJudgeBpm {
    pub open spec fn st_decode(st: LexSt) -> (Result<ProgJudgeBpmV, LexErrV>, LexSt) {
        let (r1, st1) = st_read_float(st, "ProgJudgeBpm value"@);
        match r1 {
            Err(e) => (Err(e), st1),
            Ok(value) => (Ok(ProgJudgeBpmV { value }), st1),
        }
    }

    pub(crate) fn from_cursor(cursor: &mut Cursor) -> (r: Result<Self, LexError>)
        requires
            old(cursor).wf(),
        ensures
            final(cursor).wf(),
            final(cursor).st().s == old(cursor).st().s,
            final(cursor).st().s == old(cursor).st().s,
        final(cursor).st().pos >= old(cursor).st().pos,
            ({
                let (rs, st2) = Self::st_decode(old(cursor).st());
                final(cursor).st() == st2 && rv(r) == rs
            }),
    {
        let value = match next_token_f32_or(cursor, "ProgJudgeBpm value") {
            Ok(v) => v,
            Err(e) => {
                return Err(e);
            },
        };
        Ok(Self { value })
    }
}

impl BulletPalette {
    /// Decoding after the common prefix (id, shooter, offset, target,
    /// speed): the next token decides between the older damage-type tail and
    /// the newer size/type/random-offset tail.
    pub open spec fn st_decode_tail(
        st5: LexSt,
        id: Seq<char>,
        shooter: BulletShooter,
        target_x_offset: i32,
        target: BulletTarget,
        speed: Seq<char>,
    ) -> (Result<BulletPaletteV, LexErrV>, LexSt) {
        let is_old = match st_peek(st5) {
            Some(w) => damage_type_of(w) is Some,
            None => false,
        };
        if is_old {
            let (r6, st6) = BulletDamageType::st_decode(st5);
            match r6 {
                Err(e) => (Err(e), st6),
                Ok(damage_type) => (
                    Ok(
                        BulletPaletteV {
                            id,
                            shooter,
                            target_x_offset,
                            target,
                            speed,
                            size: None,
                            ty: None,
                            random_position_offset: None,
                            damage_type: Some(damage_type),
                        },
                    ),
                    st6,
                ),
            }
        } else {
            let (r6, st6) = BulletSize::st_decode(st5);
            match r6 {
                Err(e) => (Err(e), st6),
                Ok(size) => {
                    let (r7, st7) = BulletType::st_decode(st6);
                    match r7 {
                        Err(e) => (Err(e), st7),
                        Ok(ty) => {
                            let (r8, st8) = st_read_i32(
                                st7,
                                "BulletPalette random_position_offset"@,
                            );
                            match r8 {
                                Err(e) => (Err(e), st8),
                                Ok(random_position_offset) => (
                                    Ok(
                                        BulletPaletteV {
                                            id,
                                            shooter,
                                            target_x_offset,
                                            target,
                                            speed,
                                            size: Some(size),
                                            ty: Some(ty),
                                            random_position_offset: Some(random_position_offset),
                                            damage_type: None,
                                        },
                                    ),
                                    st8,
                                ),
                            }
                        },
                    }
                },
            }
        }
    }

    pub open spec fn st_decode(st: LexSt) -> (Result<BulletPaletteV, LexErrV>, LexSt) {
        let (r1, st1) = st_read_word(st, "BulletPalette id"@);
        match r1 {
            Err(e) => (Err(e), st1),
            Ok(id) => {
                let (r2, st2) = BulletShooter::st_decode(st1);
                match r2 {
                    Err(e) => (Err(e), st2),
                    Ok(shooter) => {
                        let (r3, st3) = st_read_i32(st2, "BulletPalette target_x_offset"@);
                        match r3 {
                            Err(e) => (Err(e), st3),
                            Ok(target_x_offset) => {
                                let (r4, st4) = BulletTarget::st_decode(st3);
                                match r4 {
                                    Err(e) => (Err(e), st4),
                                    Ok(target) => {
                                        let (r5, st5) = st_read_float(
                                            st4,
                                            "BulletPalette speed"@,
                                        );
                                        match r5 {
                                            Err(e) => (Err(e), st5),
                                            Ok(speed) => Self::st_decode_tail(
                                                st5,
                                                id,
                                                shooter,
                                                target_x_offset,
                                                target,
                                                speed,
                                            ),
                                        }
                                    },
                                }
                            },
                        }
                    },
                }
            },
        }
    }

    pub(crate) fn from_cursor(cursor: &mut Cursor) -> (r: Result<Self, LexError>)
        requires
            old(cursor).wf(),
        ensures
            final(cursor).wf(),
            final(cursor).st().s == old(cursor).st().s,
            final(cursor).st().s == old(cursor).st().s,
        final(cursor).st().pos >= old(cursor).st().pos,
            ({
                let (rs, st2) = Self::st_decode(old(cursor).st());
                final(cursor).st() == st2 && rv(r) == rs
            }),
    {
        let id_str = match next_token_or(cursor, "BulletPalette id") {
            Ok(v) => v,
            Err(e) => {
                return Err(e);
            },
        };
        let id = String::from_str(id_str);
        let shooter = match BulletShooter::from_cursor(cursor) {
            Ok(v) => v,
            Err(e) => {
                return Err(e);
            },
        };
        let target_x_offset = match next_token_i32_or(cursor, "BulletPalette target_x_offset") {
            Ok(v) => v,
            Err(e) => {
                return Err(e);
            },
        };
        let target = match BulletTarget::from_cursor(cursor) {
            Ok(v) => v,
            Err(e) => {
                return Err(e);
            },
        };
        let speed = match next_token_f32_or(cursor, "BulletPalette speed") {
            Ok(v) => v,
            Err(e) => {
                return Err(e);
            },
        };
        // Different chart-format generations have different syntax here:
        // older files carry a damage type where newer ones carry size,
        // bullet type and random position offset. Peeking the next token for
        // a damage-type tag is the only way to tell them apart.
        let is_old = match cursor.peek_token() {
            Some(w) => BulletDamageType::from_str(w).is_ok(),
            None => false,
        };
        if is_old {
            let damage_type = match BulletDamageType::from_cursor(cursor) {
                Ok(v) => v,
                Err(e) => {
                    return Err(e);
                },
            };
            Ok(
                Self {
                    id,
                    shooter,
                    target_x_offset,
                    target,
                    speed,
                    size: None,
                    ty: None,
                    random_position_offset: None,
                    damage_type: Some(damage_type),
                },
            )
        } else {
            let size = match BulletSize::from_cursor(cursor) {
                Ok(v) => v,
                Err(e) => {
                    return Err(e);
                },
            };
            let ty = match BulletType::from_cursor(cursor) {
                Ok(v) => v,
                Err(e) => {
                    return Err(e);
                },
            };
            let random_position_offset = match next_token_i32_or(
                cursor,
                "BulletPalette random_position_offset",
            ) {
                Ok(v) => v,
                Err(e) => {
                    return Err(e);
                },
            };
            Ok(
                Self {
                    id,
                    shooter,
                    target_x_offset,
                    target,
                    speed,
                    size: Some(size),
                    ty: Some(ty),
                    random_position_offset: Some(random_position_offset),
                    damage_type: None,
                },
            )
        }
    }
}

impl CommandTime {
    pub open spec fn st_decode(st: LexSt, message: Seq<char>) -> (Result<CommandTime, LexErrV>, LexSt) {
        let (r1, st1) = st_read_u32(st, message);
        match r1 {
            Err(e) => (Err(e), st1),
            Ok(measure) => {
                let (r2, st2) = st_read_u32(st1, message);
                match r2 {
                    Err(e) => (Err(e), st2),
                    Ok(offset) => (Ok(CommandTime { measure, offset }), st2),
                }
            },
        }
    }

    pub(crate) fn from_cursor(cursor: &mut Cursor, message: &'static str) -> (r: Result<
        Self,
        LexError,
    >)
        requires
            old(cursor).wf(),
        ensures
            final(cursor).wf(),
            final(cursor).st().s == old(cursor).st().s,
            final(cursor).st().s == old(cursor).st().s,
        final(cursor).st().pos >= old(cursor).st().pos,
            ({
                let (rs, st2) = Self::st_decode(old(cursor).st(), message@);
                final(cursor).st() == st2 && rv(r) == rs
            }),
    {
        let measure = match next_token_u32_or(cursor, message) {
            Ok(v) => v,
            Err(e) => {
                return Err(e);
            },
        };
        let offset = match next_token_u32_or(cursor, message) {
            Ok(v) => v,
            Err(e) => {
                return Err(e);
            },
        };
        Ok(Self { measure, offset })
    }
}

impl BpmChange {
    pub open spec fn st_decode(st: LexSt) -> (Result<BpmChange, LexErrV>, LexSt) {
        let (r1, st1) = CommandTime::st_decode(st, "BpmChange time"@);
        match r1 {
            Err(e) => (Err(e), st1),
            Ok(time) => {
                let (r2, st2) = st_read_u32(st1, "BpmChange bpm"@);
                match r2 {
                    Err(e) => (Err(e), st2),
                    Ok(bpm) => (Ok(BpmChange { time, bpm }), st2),
                }
            },
        }
    }

    pub(crate) fn from_cursor(cursor: &mut Cursor) -> (r: Result<Self, LexError>)
        requires
            old(cursor).wf(),
        ensures
            final(cursor).wf(),
            final(cursor).st().s == old(cursor).st().s,
            final(cursor).st().s == old(cursor).st().s,
        final(cursor).st().pos >= old(cursor).st().pos,
            ({
                let (rs, st2) = Self::st_decode(old(cursor).st());
                final(cursor).st() == st2 && rv(r) == rs
            }),
    {
        let time = match CommandTime::from_cursor(cursor, "BpmChange time") {
            Ok(v) => v,
            Err(e) => {
                return Err(e);
            },
        };
        let bpm = match next_token_u32_or(cursor, "BpmChange bpm") {
            Ok(v) => v,
            Err(e) => {
                return Err(e);
            },
        };
        Ok(Self { time, bpm })
    }
}

impl MeterChange {
    pub open spec fn st_decode(st: LexSt) -> (Result<MeterChange, LexErrV>, LexSt) {
        let (r1, st1) = CommandTime::st_decode(st, "MeterChange time"@);
        match r1 {
            Err(e) => (Err(e), st1),
            Ok(time) => {
                let (r2, st2) = st_read_u32(st1, "MeterChange num_beats"@);
                match r2 {
                    Err(e) => (Err(e), st2),
                    Ok(num_beats) => {
                        let (r3, st3) = st_read_u32(st2, "MeterChange note_value"@);
                        match r3 {
                            Err(e) => (Err(e), st3),
                            Ok(note_value) => (Ok(MeterChange { time, num_beats, note_value }), st3),
                        }
                    },
                }
            },
        }
    }

    pub(crate) fn from_cursor(cursor: &mut Cursor) -> (r: Result<Self, LexError>)
        requires
            old(cursor).wf(),
        ensures
            final(cursor).wf(),
            final(cursor).st().s == old(cursor).st().s,
            final(cursor).st().s == old(cursor).st().s,
        final(cursor).st().pos >= old(cursor).st().pos,
            ({
                let (rs, st2) = Self::st_decode(old(cursor).st());
                final(cursor).st() == st2 && rv(r) == rs
            }),
    {
        let time = match CommandTime::from_cursor(cursor, "MeterChange time") {
            Ok(v) => v,
            Err(e) => {
                return Err(e);
            },
        };
        let num_beats = match next_token_u32_or(cursor, "MeterChange num_beats") {
            Ok(v) => v,
            Err(e) => {
                return Err(e);
            },
        };
        let note_value = match next_token_u32_or(cursor, "MeterChange note_value") {
            Ok(v) => v,
            Err(e) => {
                return Err(e);
            },
        };
        Ok(Self { time, num_beats, note_value })
    }
}

impl ClickSound {
    pub open spec fn st_decode(st: LexSt) -> (Result<ClickSound, LexErrV>, LexSt) {
        let (r1, st1) = CommandTime::st_decode(st, "ClickSound time"@);
        match r1 {
            Err(e) => (Err(e), st1),
            Ok(time) => (Ok(ClickSound { time }), st1),
        }
    }

    pub(crate) fn from_cursor(cursor: &mut Cursor) -> (r: Result<Self, LexError>)
        requires
            old(cursor).wf(),
        ensures
            final(cursor).wf(),
            final(cursor).st().s == old(cursor).st().s,
            final(cursor).st().s == old(cursor).st().s,
        final(cursor).st().pos >= old(cursor).st().pos,
            ({
                let (rs, st2) = Self::st_decode(old(cursor).st());
                final(cursor).st() == st2 && rv(r) == rs
            }),
    {
        let time = match CommandTime::from_cursor(cursor, "ClickSound time") {
            Ok(v) => v,
            Err(e) => {
                return Err(e);
            },
        };
        Ok(Self { time })
    }
}

impl Soflan {
    pub open spec fn st_decode(st: LexSt) -> (Result<SoflanV, LexErrV>, LexSt) {
        let (r1, st1) = CommandTime::st_decode(st, "Soflan time"@);
        match r1 {
            Err(e) => (Err(e), st1),
            Ok(time) => {
                let (r2, st2) = st_read_u32(st1, "Soflan duration"@);
                match r2 {
                    Err(e) => (Err(e), st2),
                    Ok(duration) => {
                        let (r3, st3) = st_read_float(st2, "Soflan current_speed_multiplier"@);
                        match r3 {
                            Err(e) => (Err(e), st3),
                            Ok(current_speed_multiplier) => (
                                Ok(SoflanV { time, duration, current_speed_multiplier }),
                                st3,
                            ),
                        }
                    },
                }
            },
        }
    }

    pub(crate) fn from_cursor(cursor: &mut Cursor) -> (r: Result<Self, LexError>)
        requires
            old(cursor).wf(),
        ensures
            final(cursor).wf(),
            final(cursor).st().s == old(cursor).st().s,
            final(cursor).st().s == old(cursor).st().s,
        final(cursor).st().pos >= old(cursor).st().pos,
            ({
                let (rs, st2) = Self::st_decode(old(cursor).st());
                final(cursor).st() == st2 && rv(r) == rs
            }),
    {
        let time = match CommandTime::from_cursor(cursor, "Soflan time") {
            Ok(v) => v,
            Err(e) => {
                return Err(e);
            },
        };
        let duration = match next_token_u32_or(cursor, "Soflan duration") {
            Ok(v) => v,
            Err(e) => {
                return Err(e);
            },
        };
        let current_speed_multiplier = match next_token_f32_or(
            cursor,
            "Soflan current_speed_multiplier",
        ) {
            Ok(v) => v,
            Err(e) => {
                return Err(e);
            },
        };
        Ok(Self { time, duration, current_speed_multiplier })
    }
}

impl EnemySet {
    pub open spec fn st_decode(st: LexSt) -> (Result<EnemySet, LexErrV>, LexSt) {
        let (r1, st1) = CommandTime::st_decode(st, "EnemySet time"@);
        match r1 {
            Err(e) => (Err(e), st1),
            Ok(time) => {
                let (r2, st2) = EnemyWave::st_decode(st1);
                match r2 {
                    Err(e) => (Err(e), st2),
                    Ok(wave) => (Ok(EnemySet { time, wave }), st2),
                }
            },
        }
    }

    pub(crate) fn from_cursor(cursor: &mut Cursor) -> (r: Result<Self, LexError>)
        requires
            old(cursor).wf(),
        ensures
            final(cursor).wf(),
            final(cursor).st().s == old(cursor).st().s,
            final(cursor).st().s == old(cursor).st().s,
        final(cursor).st().pos >= old(cursor).st().pos,
            ({
                let (rs, st2) = Self::st_decode(old(cursor).st());
                final(cursor).st() == st2 && rv(r) == rs
            }),
    {
        let time = match CommandTime::from_cursor(cursor, "EnemySet time") {
            Ok(v) => v,
            Err(e) => {
                return Err(e);
            },
        };
        let wave = match EnemyWave::from_cursor(cursor) {
            Ok(v) => v,
            Err(e) => {
                return Err(e);
            },
        };
        Ok(Self { time, wave })
    }
}

impl WallPoint {
    pub open spec fn st_decode(st: LexSt) -> (Result<WallPoint, LexErrV>, LexSt) {
        let (r1, st1) = st_read_u32(st, "WallPoint group_id"@);
        match r1 {
            Err(e) => (Err(e), st1),
            Ok(group_id) => {
                let (r2, st2) = CommandTime::st_decode(st1, "WallPoint time"@);
                match r2 {
                    Err(e) => (Err(e), st2),
                    Ok(time) => {
                        let (r3, st3) = st_read_i32(st2, "WallPoint x_position"@);
                        match r3 {
                            Err(e) => (Err(e), st3),
                            Ok(x_position) => (Ok(WallPoint { group_id, time, x_position }), st3),
                        }
                    },
                }
            },
        }
    }

    pub(crate) fn from_cursor(cursor: &mut Cursor) -> (r: Result<Self, LexError>)
        requires
            old(cursor).wf(),
        ensures
            final(cursor).wf(),
            final(cursor).st().s == old(cursor).st().s,
            final(cursor).st().s == old(cursor).st().s,
        final(cursor).st().pos >= old(cursor).st().pos,
            ({
                let (rs, st2) = Self::st_decode(old(cursor).st());
                final(cursor).st() == st2 && rv(r) == rs
            }),
    {
        let group_id = match next_token_u32_or(cursor, "WallPoint group_id") {
            Ok(v) => v,
            Err(e) => {
                return Err(e);
            },
        };
        let time = match CommandTime::from_cursor(cursor, "WallPoint time") {
            Ok(v) => v,
            Err(e) => {
                return Err(e);
            },
        };
        let x_position = match next_token_i32_or(cursor, "WallPoint x_position") {
            Ok(v) => v,
            Err(e) => {
                return Err(e);
            },
        };
        Ok(Self { group_id, time, x_position })
    }
}

impl LanePoint {
    pub open spec fn st_decode(st: LexSt) -> (Result<LanePoint, LexErrV>, LexSt) {
        let (r1, st1) = st_read_u32(st, "LanePoint group_id"@);
        match r1 {
            Err(e) => (Err(e), st1),
            Ok(group_id) => {
                let (r2, st2) = CommandTime::st_decode(st1, "LanePoint time"@);
                match r2 {
                    Err(e) => (Err(e), st2),
                    Ok(time) => {
                        let (r3, st3) = st_read_i32(st2, "LanePoint x_position"@);
                        match r3 {
                            Err(e) => (Err(e), st3),
                            Ok(x_position) => (Ok(LanePoint { group_id, time, x_position }), st3),
                        }
                    },
                }
            },
        }
    }

    pub(crate) fn from_cursor(cursor: &mut Cursor) -> (r: Result<Self, LexError>)
        requires
            old(cursor).wf(),
        ensures
            final(cursor).wf(),
            final(cursor).st().s == old(cursor).st().s,
            final(cursor).st().s == old(cursor).st().s,
        final(cursor).st().pos >= old(cursor).st().pos,
            ({
                let (rs, st2) = Self::st_decode(old(cursor).st());
                final(cursor).st() == st2 && rv(r) == rs
            }),
    {
        let group_id = match next_token_u32_or(cursor, "LanePoint group_id") {
            Ok(v) => v,
            Err(e) => {
                return Err(e);
            },
        };
        let time = match CommandTime::from_cursor(cursor, "LanePoint time") {
            Ok(v) => v,
            Err(e) => {
                return Err(e);
            },
        };
        let x_position = match next_token_i32_or(cursor, "LanePoint x_position") {
            Ok(v) => v,
            Err(e) => {
                return Err(e);
            },
        };
        Ok(Self { group_id, time, x_position })
    }
}

impl ColorfulLanePoint {
    pub open spec fn st_decode(st: LexSt) -> (Result<ColorfulLanePoint, LexErrV>, LexSt) {
        let (r1, st1) = st_read_u32(st, "ColorfulLanePoint group_id"@);
        match r1 {
            Err(e) => (Err(e), st1),
            Ok(group_id) => {
                let (r2, st2) = CommandTime::st_decode(st1, "ColorfulLanePoint time"@);
                match r2 {
                    Err(e) => (Err(e), st2),
                    Ok(time) => {
                        let (r3, st3) = st_read_i32(st2, "ColorfulLanePoint x_position"@);
                        match r3 {
                            Err(e) => (Err(e), st3),
                            Ok(x_position) => {
                                let (r4, st4) = st_read_u32(st3, "ColorfulLanePoint color"@);
                                match r4 {
                                    Err(e) => (Err(e), st4),
                                    Ok(color) => {
                                        let (r5, st5) = st_read_u32(
                                            st4,
                                            "ColorfulLanePoint brightness"@,
                                        );
                                        match r5 {
                                            Err(e) => (Err(e), st5),
                                            Ok(brightness) => (
                                                Ok(
                                                    ColorfulLanePoint {
                                                        group_id,
                                                        time,
                                                        x_position,
                                                        color,
                                                        brightness,
                                                    },
                                                ),
                                                st5,
                                            ),
                                        }
                                    },
                                }
                            },
                        }
                    },
                }
            },
        }
    }

    pub(crate) fn from_cursor(cursor: &mut Cursor) -> (r: Result<Self, LexError>)
        requires
            old(cursor).wf(),
        ensures
            final(cursor).wf(),
            final(cursor).st().s == old(cursor).st().s,
            final(cursor).st().s == old(cursor).st().s,
        final(cursor).st().pos >= old(cursor).st().pos,
            ({
                let (rs, st2) = Self::st_decode(old(cursor).st());
                final(cursor).st() == st2 && rv(r) == rs
            }),
    {
        let group_id = match next_token_u32_or(cursor, "ColorfulLanePoint group_id") {
            Ok(v) => v,
            Err(e) => {
                return Err(e);
            },
        };
        let time = match CommandTime::from_cursor(cursor, "ColorfulLanePoint time") {
            Ok(v) => v,
            Err(e) => {
                return Err(e);
            },
        };
        let x_position = match next_token_i32_or(cursor, "ColorfulLanePoint x_position") {
            Ok(v) => v,
            Err(e) => {
                return Err(e);
            },
        };
        let color = match next_token_u32_or(cursor, "ColorfulLanePoint color") {
            Ok(v) => v,
            Err(e) => {
                return Err(e);
            },
        };
        let brightness = match next_token_u32_or(cursor, "ColorfulLanePoint brightness") {
            Ok(v) => v,
            Err(e) => {
                return Err(e);
            },
        };
        Ok(Self { group_id, time, x_position, color, brightness })
    }
}

impl EnemyLanePoint {
    pub open spec fn st_decode(st: LexSt) -> (Result<EnemyLanePoint, LexErrV>, LexSt) {
        let (r1, st1) = st_read_u32(st, "EnemyLanePoint group_id"@);
        match r1 {
            Err(e) => (Err(e), st1),
            Ok(group_id) => {
                let (r2, st2) = CommandTime::st_decode(st1, "EnemyLanePoint time"@);
                match r2 {
                    Err(e) => (Err(e), st2),
                    Ok(time) => {
                        let (r3, st3) = st_read_i32(st2, "EnemyLanePoint x_position"@);
                        match r3 {
                            Err(e) => (Err(e), st3),
                            Ok(x_position) => (
                                Ok(EnemyLanePoint { group_id, time, x_position }),
                                st3,
                            ),
                        }
                    },
                }
            },
        }
    }

    pub(crate) fn from_cursor(cursor: &mut Cursor) -> (r: Result<Self, LexError>)
        requires
            old(cursor).wf(),
        ensures
            final(cursor).wf(),
            final(cursor).st().s == old(cursor).st().s,
            final(cursor).st().s == old(cursor).st().s,
        final(cursor).st().pos >= old(cursor).st().pos,
            ({
                let (rs, st2) = Self::st_decode(old(cursor).st());
                final(cursor).st() == st2 && rv(r) == rs
            }),
    {
        let group_id = match next_token_u32_or(cursor, "EnemyLanePoint group_id") {
            Ok(v) => v,
            Err(e) => {
                return Err(e);
            },
        };
        let time = match CommandTime::from_cursor(cursor, "EnemyLanePoint time") {
            Ok(v) => v,
            Err(e) => {
                return Err(e);
            },
        };
        let x_position = match next_token_i32_or(cursor, "EnemyLanePoint x_position") {
            Ok(v) => v,
            Err(e) => {
                return Err(e);
            },
        };
        Ok(Self { group_id, time, x_position })
    }
}

impl LaneEvent {
    pub open spec fn st_decode(st: LexSt) -> (Result<LaneEvent, LexErrV>, LexSt) {
        let (r1, st1) = st_read_u32(st, "LaneEvent group_id"@);
        match r1 {
            Err(e) => (Err(e), st1),
            Ok(group_id) => {
                let (r2, st2) = CommandTime::st_decode(st1, "LaneEvent start_time"@);
                match r2 {
                    Err(e) => (Err(e), st2),
                    Ok(start_time) => {
                        let (r3, st3) = st_read_i32(st2, "LaneEvent start_x_position"@);
                        match r3 {
                            Err(e) => (Err(e), st3),
                            Ok(start_x_position) => {
                                let (r4, st4) = st_read_i32(st3, "LaneEvent start_x_offset"@);
                                match r4 {
                                    Err(e) => (Err(e), st4),
                                    Ok(start_x_offset) => {
                                        let (r5, st5) = CommandTime::st_decode(
                                            st4,
                                            "LaneEvent end_time"@,
                                        );
                                        match r5 {
                                            Err(e) => (Err(e), st5),
                                            Ok(end_time) => {
                                                let (r6, st6) = st_read_i32(
                                                    st5,
                                                    "LaneEvent end_x_position"@,
                                                );
                                                match r6 {
                                                    Err(e) => (Err(e), st6),
                                                    Ok(end_x_position) => {
                                                        let (r7, st7) = st_read_i32(
                                                            st6,
                                                            "LaneEvent end_x_offset"@,
                                                        );
                                                        match r7 {
                                                            Err(e) => (Err(e), st7),
                                                            Ok(end_x_offset) => (
                                                                Ok(
                                                                    LaneEvent {
                                                                        group_id,
                                                                        start_time,
                                                                        start_x_position,
                                                                        start_x_offset,
                                                                        end_time,
                                                                        end_x_position,
                                                                        end_x_offset,
                                                                    },
                                                                ),
                                                                st7,
                                                            ),
                                                        }
                                                    },
                                                }
                                            },
                                        }
                                    },
                                }
                            },
                        }
                    },
                }
            },
        }
    }

    pub(crate) fn from_cursor(cursor: &mut Cursor) -> (r: Result<Self, LexError>)
        requires
            old(cursor).wf(),
        ensures
            final(cursor).wf(),
            final(cursor).st().s == old(cursor).st().s,
            final(cursor).st().s == old(cursor).st().s,
        final(cursor).st().pos >= old(cursor).st().pos,
            ({
                let (rs, st2) = Self::st_decode(old(cursor).st());
                final(cursor).st() == st2 && rv(r) == rs
            }),
    {
        let group_id = match next_token_u32_or(cursor, "LaneEvent group_id") {
            Ok(v) => v,
            Err(e) => {
                return Err(e);
            },
        };
        let start_time = match CommandTime::from_cursor(cursor, "LaneEvent start_time") {
            Ok(v) => v,
            Err(e) => {
                return Err(e);
            },
        };
        let start_x_position = match next_token_i32_or(cursor, "LaneEvent start_x_position") {
            Ok(v) => v,
            Err(e) => {
                return Err(e);
            },
        };
        let start_x_offset = match next_token_i32_or(cursor, "LaneEvent start_x_offset") {
            Ok(v) => v,
            Err(e) => {
                return Err(e);
            },
        };
        let end_time = match CommandTime::from_cursor(cursor, "LaneEvent end_time") {
            Ok(v) => v,
            Err(e) => {
                return Err(e);
            },
        };
        let end_x_position = match next_token_i32_or(cursor, "LaneEvent end_x_position") {
            Ok(v) => v,
            Err(e) => {
                return Err(e);
            },
        };
        let end_x_offset = match next_token_i32_or(cursor, "LaneEvent end_x_offset") {
            Ok(v) => v,
            Err(e) => {
                return Err(e);
            },
        };
        Ok(
            Self {
                group_id,
                start_time,
                start_x_position,
                start_x_offset,
                end_time,
                end_x_position,
                end_x_offset,
            },
        )
    }
}

impl Bullet {
    pub open spec fn st_decode(st: LexSt) -> (Result<BulletV, LexErrV>, LexSt) {
        let (r1, st1) = st_read_word(st, "Bullet pallete_id"@);
        match r1 {
            Err(e) => (Err(e), st1),
            Ok(pallete_id) => {
                let (r2, st2) = CommandTime::st_decode(st1, "Bullet time"@);
                match r2 {
                    Err(e) => (Err(e), st2),
                    Ok(time) => {
                        let (r3, st3) = st_read_i32(st2, "Bullet x_position"@);
                        match r3 {
                            Err(e) => (Err(e), st3),
                            Ok(x_position) => (
                                Ok(
                                    BulletV {
                                        pallete_id,
                                        time,
                                        x_position,
                                        damage_type: BulletDamageType::Normal,
                                    },
                                ),
                                st3,
                            ),
                        }
                    },
                }
            },
        }
    }

    pub(crate) fn from_cursor(cursor: &mut Cursor) -> (r: Result<Self, LexError>)
        requires
            old(cursor).wf(),
        ensures
            final(cursor).wf(),
            final(cursor).st().s == old(cursor).st().s,
            final(cursor).st().s == old(cursor).st().s,
        final(cursor).st().pos >= old(cursor).st().pos,
            ({
                let (rs, st2) = Self::st_decode(old(cursor).st());
                final(cursor).st() == st2 && rv(r) == rs
            }),
    {
        let pallete_id = match next_token_or(cursor, "Bullet pallete_id") {
            Ok(v) => v,
            Err(e) => {
                return Err(e);
            },
        };
        let time = match CommandTime::from_cursor(cursor, "Bullet time") {
            Ok(v) => v,
            Err(e) => {
                return Err(e);
            },
        };
        let x_position = match next_token_i32_or(cursor, "Bullet x_position") {
            Ok(v) => v,
            Err(e) => {
                return Err(e);
            },
        };
        // In older chart versions the damage type is specified in the
        // palette list, so the bullet itself defaults to normal damage.
        Ok(
            Self {
                pallete_id: String::from_str(pallete_id),
                time,
                x_position,
                damage_type: BulletDamageType::Normal,
            },
        )
    }
}

impl BeamPoint {
    pub open spec fn st_decode(st: LexSt) -> (Result<BeamPoint, LexErrV>, LexSt) {
        let (r1, st1) = st_read_u32(st, "BeamPoint record_id"@);
        match r1 {
            Err(e) => (Err(e), st1),
            Ok(record_id) => {
                let (r2, st2) = CommandTime::st_decode(st1, "BeamPoint time"@);
                match r2 {
                    Err(e) => (Err(e), st2),
                    Ok(time) => {
                        let (r3, st3) = st_read_i32(st2, "BeamPoint x_position"@);
                        match r3 {
                            Err(e) => (Err(e), st3),
                            Ok(x_position) => {
                                let (r4, st4) = st_read_u32(st3, "BeamPoint width"@);
                                match r4 {
                                    Err(e) => (Err(e), st4),
                                    Ok(width) => (
                                        Ok(BeamPoint { record_id, time, x_position, width }),
                                        st4,
                                    ),
                                }
                            },
                        }
                    },
                }
            },
        }
    }

    pub(crate) fn from_cursor(cursor: &mut Cursor) -> (r: Result<Self, LexError>)
        requires
            old(cursor).wf(),
        ensures
            final(cursor).wf(),
            final(cursor).st().s == old(cursor).st().s,
            final(cursor).st().s == old(cursor).st().s,
        final(cursor).st().pos >= old(cursor).st().pos,
            ({
                let (rs, st2) = Self::st_decode(old(cursor).st());
                final(cursor).st() == st2 && rv(r) == rs
            }),
    {
        let record_id = match next_token_u32_or(cursor, "BeamPoint record_id") {
            Ok(v) => v,
            Err(e) => {
                return Err(e);
            },
        };
        let time = match CommandTime::from_cursor(cursor, "BeamPoint time") {
            Ok(v) => v,
            Err(e) => {
                return Err(e);
            },
        };
        let x_position = match next_token_i32_or(cursor, "BeamPoint x_position") {
            Ok(v) => v,
            Err(e) => {
                return Err(e);
            },
        };
        let width = match next_token_u32_or(cursor, "BeamPoint width") {
            Ok(v) => v,
            Err(e) => {
                return Err(e);
            },
        };
        Ok(Self { record_id, time, x_position, width })
    }
}

impl ObliqueBeamPoint {
    pub open spec fn st_decode(st: LexSt) -> (Result<ObliqueBeamPoint, LexErrV>, LexSt) {
        let (r1, st1) = st_read_u32(st, "ObliqueBeamPoint record_id"@);
        match r1 {
            Err(e) => (Err(e), st1),
            Ok(record_id) => {
                let (r2, st2) = CommandTime::st_decode(st1, "ObliqueBeamPoint time"@);
                match r2 {
                    Err(e) => (Err(e), st2),
                    Ok(time) => {
                        let (r3, st3) = st_read_i32(st2, "ObliqueBeamPoint x_position"@);
                        match r3 {
                            Err(e) => (Err(e), st3),
                            Ok(x_position) => {
                                let (r4, st4) = st_read_u32(st3, "ObliqueBeamPoint width"@);
                                match r4 {
                                    Err(e) => (Err(e), st4),
                                    Ok(width) => {
                                        let (r5, st5) = st_read_i32(
                                            st4,
                                            "ObliqueBeamPoint shoot_position_x_offset"@,
                                        );
                                        match r5 {
                                            Err(e) => (Err(e), st5),
                                            Ok(shoot_position_x_offset) => (
                                                Ok(
                                                    ObliqueBeamPoint {
                                                        record_id,
                                                        time,
                                                        x_position,
                                                        width,
                                                        shoot_position_x_offset,
                                                    },
                                                ),
                                                st5,
                                            ),
                                        }
                                    },
                                }
                            },
                        }
                    },
                }
            },
        }
    }

    pub(crate) fn from_cursor(cursor: &mut Cursor) -> (r: Result<Self, LexError>)
        requires
            old(cursor).wf(),
        ensures
            final(cursor).wf(),
            final(cursor).st().s == old(cursor).st().s,
            final(cursor).st().s == old(cursor).st().s,
        final(cursor).st().pos >= old(cursor).st().pos,
            ({
                let (rs, st2) = Self::st_decode(old(cursor).st());
                final(cursor).st() == st2 && rv(r) == rs
            }),
    {
        let record_id = match next_token_u32_or(cursor, "ObliqueBeamPoint record_id") {
            Ok(v) => v,
            Err(e) => {
                return Err(e);
            },
        };
        let time = match CommandTime::from_cursor(cursor, "ObliqueBeamPoint time") {
            Ok(v) => v,
            Err(e) => {
                return Err(e);
            },
        };
        let x_position = match next_token_i32_or(cursor, "ObliqueBeamPoint x_position") {
            Ok(v) => v,
            Err(e) => {
                return Err(e);
            },
        };
        let width = match next_token_u32_or(cursor, "ObliqueBeamPoint width") {
            Ok(v) => v,
            Err(e) => {
                return Err(e);
            },
        };
        let shoot_position_x_offset = match next_token_i32_or(
            cursor,
            "ObliqueBeamPoint shoot_position_x_offset",
        ) {
            Ok(v) => v,
            Err(e) => {
                return Err(e);
            },
        };
        Ok(Self { record_id, time, x_position, width, shoot_position_x_offset })
    }
}

impl Bell {
    pub open spec fn st_decode(st: LexSt) -> (Result<BellV, LexErrV>, LexSt) {
        let (r1, st1) = CommandTime::st_decode(st, "Bell time"@);
        match r1 {
            Err(e) => (Err(e), st1),
            Ok(time) => {
                let (r2, st2) = st_read_i32(st1, "Bell x_position"@);
                match r2 {
                    Err(e) => (Err(e), st2),
                    Ok(x_position) => {
                        let (line, st3) = st_remaining_line(st2);
                        let bullet_palette_id = if line.len() > 0 {
                            Some(line)
                        } else {
                            None
                        };
                        (Ok(BellV { time, x_position, bullet_palette_id }), st3)
                    },
                }
            },
        }
    }

    pub(crate) fn from_cursor(cursor: &mut Cursor) -> (r: Result<Self, LexError>)
        requires
            old(cursor).wf(),
        ensures
            final(cursor).wf(),
            final(cursor).st().s == old(cursor).st().s,
            final(cursor).st().s == old(cursor).st().s,
        final(cursor).st().pos >= old(cursor).st().pos,
            ({
                let (rs, st2) = Self::st_decode(old(cursor).st());
                final(cursor).st() == st2 && rv(r) == rs
            }),
    {
        let time = match CommandTime::from_cursor(cursor, "Bell time") {
            Ok(v) => v,
            Err(e) => {
                return Err(e);
            },
        };
        let ghost st_before_x = cursor.st();
        let x_position = match next_token_i32_or(cursor, "Bell x_position") {
            Ok(v) => v,
            Err(e) => {
                return Err(e);
            },
        };
        proof {
            lemma_token_then_line_ok(st_before_x);
        }
        let current_remaining_line = cursor.current_remaining_line();
        let bullet_palette_id = if !current_remaining_line.is_empty() {
            Some(String::from_str(current_remaining_line))
        } else {
            None
        };
        Ok(Self { time, x_position, bullet_palette_id })
    }
}

impl Flick {
    pub open spec fn st_decode(st: LexSt) -> (Result<Flick, LexErrV>, LexSt) {
        let (r1, st1) = CommandTime::st_decode(st, "Flick time"@);
        match r1 {
            Err(e) => (Err(e), st1),
            Ok(time) => {
                let (r2, st2) = st_read_i32(st1, "Flick x_position"@);
                match r2 {
                    Err(e) => (Err(e), st2),
                    Ok(x_position) => {
                        let (r3, st3) = FlickDirection::st_decode(st2);
                        match r3 {
                            Err(e) => (Err(e), st3),
                            Ok(direction) => (Ok(Flick { time, x_position, direction }), st3),
                        }
                    },
                }
            },
        }
    }

    pub(crate) fn from_cursor(cursor: &mut Cursor) -> (r: Result<Self, LexError>)
        requires
            old(cursor).wf(),
        ensures
            final(cursor).wf(),
            final(cursor).st().s == old(cursor).st().s,
            final(cursor).st().s == old(cursor).st().s,
        final(cursor).st().pos >= old(cursor).st().pos,
            ({
                let (rs, st2) = Self::st_decode(old(cursor).st());
                final(cursor).st() == st2 && rv(r) == rs
            }),
    {
        let time = match CommandTime::from_cursor(cursor, "Flick time") {
            Ok(v) => v,
            Err(e) => {
                return Err(e);
            },
        };
        let x_position = match next_token_i32_or(cursor, "Flick x_position") {
            Ok(v) => v,
            Err(e) => {
                return Err(e);
            },
        };
        let direction = match FlickDirection::from_cursor(cursor) {
            Ok(v) => v,
            Err(e) => {
                return Err(e);
            },
        };
        Ok(Self { time, x_position, direction })
    }
}

impl Tap {
    pub open spec fn st_decode(st: LexSt) -> (Result<Tap, LexErrV>, LexSt) {
        let (r1, st1) = st_read_u32(st, "Tap lane_group_id"@);
        match r1 {
            Err(e) => (Err(e), st1),
            Ok(lane_group_id) => {
                let (r2, st2) = CommandTime::st_decode(st1, "Tap time"@);
                match r2 {
                    Err(e) => (Err(e), st2),
                    Ok(time) => {
                        let (r3, st3) = st_read_i32(st2, "Tap x_position"@);
                        match r3 {
                            Err(e) => (Err(e), st3),
                            Ok(x_position) => {
                                let (r4, st4) = st_read_i32(st3, "Tap x_offset"@);
                                match r4 {
                                    Err(e) => (Err(e), st4),
                                    Ok(x_offset) => (
                                        Ok(Tap { lane_group_id, time, x_position, x_offset }),
                                        st4,
                                    ),
                                }
                            },
                        }
                    },
                }
            },
        }
    }

    pub(crate) fn from_cursor(cursor: &mut Cursor) -> (r: Result<Self, LexError>)
        requires
            old(cursor).wf(),
        ensures
            final(cursor).wf(),
            final(cursor).st().s == old(cursor).st().s,
            final(cursor).st().s == old(cursor).st().s,
        final(cursor).st().pos >= old(cursor).st().pos,
            ({
                let (rs, st2) = Self::st_decode(old(cursor).st());
                final(cursor).st() == st2 && rv(r) == rs
            }),
    {
        let lane_group_id = match next_token_u32_or(cursor, "Tap lane_group_id") {
            Ok(v) => v,
            Err(e) => {
                return Err(e);
            },
        };
        let time = match CommandTime::from_cursor(cursor, "Tap time") {
            Ok(v) => v,
            Err(e) => {
                return Err(e);
            },
        };
        let x_position = match next_token_i32_or(cursor, "Tap x_position") {
            Ok(v) => v,
            Err(e) => {
                return Err(e);
            },
        };
        let x_offset = match next_token_i32_or(cursor, "Tap x_offset") {
            Ok(v) => v,
            Err(e) => {
                return Err(e);
            },
        };
        Ok(Self { lane_group_id, time, x_position, x_offset })
    }
}

impl Hold {
    pub open spec fn st_decode(st: LexSt) -> (Result<Hold, LexErrV>, LexSt) {
        let (r1, st1) = st_read_u32(st, "Hold lane_group_id"@);
        match r1 {
            Err(e) => (Err(e), st1),
            Ok(lane_group_id) => {
                let (r2, st2) = CommandTime::st_decode(st1, "Hold start_time"@);
                match r2 {
                    Err(e) => (Err(e), st2),
                    Ok(start_time) => {
                        let (r3, st3) = st_read_i32(st2, "Hold start_x_position"@);
                        match r3 {
                            Err(e) => (Err(e), st3),
                            Ok(start_x_position) => {
                                let (r4, st4) = st_read_i32(st3, "Hold start_x_offset"@);
                                match r4 {
                                    Err(e) => (Err(e), st4),
                                    Ok(start_x_offset) => {
                                        let (r5, st5) = CommandTime::st_decode(
                                            st4,
                                            "Hold end_time"@,
                                        );
                                        match r5 {
                                            Err(e) => (Err(e), st5),
                                            Ok(end_time) => {
                                                let (r6, st6) = st_read_i32(
                                                    st5,
                                                    "Hold end_x_position"@,
                                                );
                                                match r6 {
                                                    Err(e) => (Err(e), st6),
                                                    Ok(end_x_position) => {
                                                        let (r7, st7) = st_read_i32(
                                                            st6,
                                                            "Hold end_x_offset"@,
                                                        );
                                                        match r7 {
                                                            Err(e) => (Err(e), st7),
                                                            Ok(end_x_offset) => (
                                                                Ok(
                                                                    Hold {
                                                                        lane_group_id,
                                                                        start_time,
                                                                        start_x_position,
                                                                        start_x_offset,
                                                                        end_time,
                                                                        end_x_position,
                                                                        end_x_offset,
                                                                    },
                                                                ),
                                                                st7,
                                                            ),
                                                        }
                                                    },
                                                }
                                            },
                                        }
                                    },
                                }
                            },
                        }
                    },
                }
            },
        }
    }

    pub(crate) fn from_cursor(cursor: &mut Cursor) -> (r: Result<Self, LexError>)
        requires
            old(cursor).wf(),
        ensures
            final(cursor).wf(),
            final(cursor).st().s == old(cursor).st().s,
            final(cursor).st().s == old(cursor).st().s,
        final(cursor).st().pos >= old(cursor).st().pos,
            ({
                let (rs, st2) = Self::st_decode(old(cursor).st());
                final(cursor).st() == st2 && rv(r) == rs
            }),
    {
        let lane_group_id = match next_token_u32_or(cursor, "Hold lane_group_id") {
            Ok(v) => v,
            Err(e) => {
                return Err(e);
            },
        };
        let start_time = match CommandTime::from_cursor(cursor, "Hold start_time") {
            Ok(v) => v,
            Err(e) => {
                return Err(e);
            },
        };
        let start_x_position = match next_token_i32_or(cursor, "Hold start_x_position") {
            Ok(v) => v,
            Err(e) => {
                return Err(e);
            },
        };
        let start_x_offset = match next_token_i32_or(cursor, "Hold start_x_offset") {
            Ok(v) => v,
            Err(e) => {
                return Err(e);
            },
        };
        let end_time = match CommandTime::from_cursor(cursor, "Hold end_time") {
            Ok(v) => v,
            Err(e) => {
                return Err(e);
            },
        };
        let end_x_position = match next_token_i32_or(cursor, "Hold end_x_position") {
            Ok(v) => v,
            Err(e) => {
                return Err(e);
            },
        };
        let end_x_offset = match next_token_i32_or(cursor, "Hold end_x_offset") {
            Ok(v) => v,
            Err(e) => {
                return Err(e);
            },
        };
        Ok(
            Self {
                lane_group_id,
                start_time,
                start_x_position,
                start_x_offset,
                end_time,
                end_x_position,
                end_x_offset,
            },
        )
    }
}

/// One decoded command.
#[derive(Clone, Debug, PartialEq, Eq, Hash)]
pub enum Token {
    /// A section-header line (a token starting with `[`): kept only for
    /// human readability of the source file, it carries no semantic weight.
    SectionName,
    // Header.
    Version(Version),
    Creator(Creator),
    BpmDefinition(BpmDefinition),
    MeterDefinition(MeterDefinition),
    TickResolution(TickResolution),
    XResolution(XResolution),
    ClickDefinition(ClickDefinition),
    Tutorial(Tutorial),
    BulletDamage(BulletDamage),
    HardBulletDamage(HardBulletDamage),
    DangerBulletDamage(DangerBulletDamage),
    BeamDamage(BeamDamage),
    ProgJudgeBpm(ProgJudgeBpm),
    // Totals.
    TotalNotes(TotalNotes),
    TotalTapNotes(TotalTapNotes),
    TotalHoldNotes(TotalHoldNotes),
    TotalSideNotes(TotalSideNotes),
    TotalSideHoldNotes(TotalSideHoldNotes),
    TotalFlickNotes(TotalFlickNotes),
    TotalBellNotes(TotalBellNotes),
    // Bullet palette.
    BulletPalette(BulletPalette),
    // Not used.
    Btp(Btp),
    // Composition.
    BpmChange(BpmChange),
    MeterChange(MeterChange),
    Soflan(Soflan),
    // Click sounds.
    ClickSound(ClickSound),
    // Enemy wave assignment.
    EnemySet(EnemySet),
    // Walls and lanes.
    WallLeftStart(WallPoint),
    WallLeftNext(WallPoint),
    WallLeftEnd(WallPoint),
    WallRightStart(WallPoint),
    WallRightNext(WallPoint),
    WallRightEnd(WallPoint),
    LaneLeftStart(LanePoint),
    LaneLeftNext(LanePoint),
    LaneLeftEnd(LanePoint),
    LaneCenterStart(LanePoint),
    LaneCenterNext(LanePoint),
    LaneCenterEnd(LanePoint),
    LaneRightStart(LanePoint),
    LaneRightNext(LanePoint),
    LaneRightEnd(LanePoint),
    ColorfulLaneStart(ColorfulLanePoint),
    ColorfulLaneNext(ColorfulLanePoint),
    ColorfulLaneEnd(ColorfulLanePoint),
    EnemyLaneStart(EnemyLanePoint),
    EnemyLaneNext(EnemyLanePoint),
    EnemyLaneEnd(EnemyLanePoint),
    LaneDisappearance(LaneEvent),
    LaneBlock(LaneEvent),
    // Bullets.
    Bullet(Bullet),
    // Beams.
    BeamStart(BeamPoint),
    BeamNext(BeamPoint),
    BeamEnd(BeamPoint),
    ObliqueBeamStart(ObliqueBeamPoint),
    ObliqueBeamNext(ObliqueBeamPoint),
    ObliqueBeamEnd(ObliqueBeamPoint),
    // Notes.
    Bell(Bell),
    Flick(Flick),
    CriticalFlick(Flick),
    Tap(Tap),
    CriticalTap(Tap),
    Hold(Hold),
    CriticalHold(Hold),
}

/// Spec-level mirror of [`Token`].
pub ghost enum TokenV {
    SectionName,
    Version(Version),
    Creator(CreatorV),
    BpmDefinition(BpmDefinitionV),
    MeterDefinition(MeterDefinition),
    TickResolution(TickResolution),
    XResolution(XResolution),
    ClickDefinition(ClickDefinition),
    Tutorial(Tutorial),
    BulletDamage(BulletDamageV),
    HardBulletDamage(HardBulletDamageV),
    DangerBulletDamage(DangerBulletDamageV),
    BeamDamage(BeamDamageV),
    ProgJudgeBpm(ProgJudgeBpmV),
    TotalNotes(TotalNotes),
    TotalTapNotes(TotalTapNotes),
    TotalHoldNotes(TotalHoldNotes),
    TotalSideNotes(TotalSideNotes),
    TotalSideHoldNotes(TotalSideHoldNotes),
    TotalFlickNotes(TotalFlickNotes),
    TotalBellNotes(TotalBellNotes),
    BulletPalette(BulletPaletteV),
    Btp(Btp),
    BpmChange(BpmChange),
    MeterChange(MeterChange),
    Soflan(SoflanV),
    ClickSound(ClickSound),
    EnemySet(EnemySet),
    WallLeftStart(WallPoint),
    WallLeftNext(WallPoint),
    WallLeftEnd(WallPoint),
    WallRightStart(WallPoint),
    WallRightNext(WallPoint),
    WallRightEnd(WallPoint),
    LaneLeftStart(LanePoint),
    LaneLeftNext(LanePoint),
    LaneLeftEnd(LanePoint),
    LaneCenterStart(LanePoint),
    LaneCenterNext(LanePoint),
    LaneCenterEnd(LanePoint),
    LaneRightStart(LanePoint),
    LaneRightNext(LanePoint),
    LaneRightEnd(LanePoint),
    ColorfulLaneStart(ColorfulLanePoint),
    ColorfulLaneNext(ColorfulLanePoint),
    ColorfulLaneEnd(ColorfulLanePoint),
    EnemyLaneStart(EnemyLanePoint),
    EnemyLaneNext(EnemyLanePoint),
    EnemyLaneEnd(EnemyLanePoint),
    LaneDisappearance(LaneEvent),
    LaneBlock(LaneEvent),
    Bullet(BulletV),
    BeamStart(BeamPoint),
    BeamNext(BeamPoint),
    BeamEnd(BeamPoint),
    ObliqueBeamStart(ObliqueBeamPoint),
    ObliqueBeamNext(ObliqueBeamPoint),
    ObliqueBeamEnd(ObliqueBeamPoint),
    Bell(BellV),
    Flick(Flick),
    CriticalFlick(Flick),
    Tap(Tap),
    CriticalTap(Tap),
    Hold(Hold),
    CriticalHold(Hold),
}

impl View for Token {
    type V = TokenV;

    open spec fn view(&self) -> TokenV {
        match self {
            Token::SectionName => TokenV::SectionName,
            Token::Version(v) => TokenV::Version(v@),
            Token::Creator(v) => TokenV::Creator(v@),
            Token::BpmDefinition(v) => TokenV::BpmDefinition(v@),
            Token::MeterDefinition(v) => TokenV::MeterDefinition(v@),
            Token::TickResolution(v) => TokenV::TickResolution(v@),
            Token::XResolution(v) => TokenV::XResolution(v@),
            Token::ClickDefinition(v) => TokenV::ClickDefinition(v@),
            Token::Tutorial(v) => TokenV::Tutorial(v@),
            Token::BulletDamage(v) => TokenV::BulletDamage(v@),
            Token::HardBulletDamage(v) => TokenV::HardBulletDamage(v@),
            Token::DangerBulletDamage(v) => TokenV::DangerBulletDamage(v@),
            Token::BeamDamage(v) => TokenV::BeamDamage(v@),
            Token::ProgJudgeBpm(v) => TokenV::ProgJudgeBpm(v@),
            Token::TotalNotes(v) => TokenV::TotalNotes(v@),
            Token::TotalTapNotes(v) => TokenV::TotalTapNotes(v@),
            Token::TotalHoldNotes(v) => TokenV::TotalHoldNotes(v@),
            Token::TotalSideNotes(v) => TokenV::TotalSideNotes(v@),
            Token::TotalSideHoldNotes(v) => TokenV::TotalSideHoldNotes(v@),
            Token::TotalFlickNotes(v) => TokenV::TotalFlickNotes(v@),
            Token::TotalBellNotes(v) => TokenV::TotalBellNotes(v@),
            Token::BulletPalette(v) => TokenV::BulletPalette(v@),
            Token::Btp(v) => TokenV::Btp(v@),
            Token::BpmChange(v) => TokenV::BpmChange(v@),
            Token::MeterChange(v) => TokenV::MeterChange(v@),
            Token::Soflan(v) => TokenV::Soflan(v@),
            Token::ClickSound(v) => TokenV::ClickSound(v@),
            Token::EnemySet(v) => TokenV::EnemySet(v@),
            Token::WallLeftStart(v) => TokenV::WallLeftStart(v@),
            Token::WallLeftNext(v) => TokenV::WallLeftNext(v@),
            Token::WallLeftEnd(v) => TokenV::WallLeftEnd(v@),
            Token::WallRightStart(v) => TokenV::WallRightStart(v@),
            Token::WallRightNext(v) => TokenV::WallRightNext(v@),
            Token::WallRightEnd(v) => TokenV::WallRightEnd(v@),
            Token::LaneLeftStart(v) => TokenV::LaneLeftStart(v@),
            Token::LaneLeftNext(v) => TokenV::LaneLeftNext(v@),
            Token::LaneLeftEnd(v) => TokenV::LaneLeftEnd(v@),
            Token::LaneCenterStart(v) => TokenV::LaneCenterStart(v@),
            Token::LaneCenterNext(v) => TokenV::LaneCenterNext(v@),
            Token::LaneCenterEnd(v) => TokenV::LaneCenterEnd(v@),
            Token::LaneRightStart(v) => TokenV::LaneRightStart(v@),
            Token::LaneRightNext(v) => TokenV::LaneRightNext(v@),
            Token::LaneRightEnd(v) => TokenV::LaneRightEnd(v@),
            Token::ColorfulLaneStart(v) => TokenV::ColorfulLaneStart(v@),
            Token::ColorfulLaneNext(v) => TokenV::ColorfulLaneNext(v@),
            Token::ColorfulLaneEnd(v) => TokenV::ColorfulLaneEnd(v@),
            Token::EnemyLaneStart(v) => TokenV::EnemyLaneStart(v@),
            Token::EnemyLaneNext(v) => TokenV::EnemyLaneNext(v@),
            Token::EnemyLaneEnd(v) => TokenV::EnemyLaneEnd(v@),
            Token::LaneDisappearance(v) => TokenV::LaneDisappearance(v@),
            Token::LaneBlock(v) => TokenV::LaneBlock(v@),
            Token::Bullet(v) => TokenV::Bullet(v@),
            Token::BeamStart(v) => TokenV::BeamStart(v@),
            Token::BeamNext(v) => TokenV::BeamNext(v@),
            Token::BeamEnd(v) => TokenV::BeamEnd(v@),
            Token::ObliqueBeamStart(v) => TokenV::ObliqueBeamStart(v@),
            Token::ObliqueBeamNext(v) => TokenV::ObliqueBeamNext(v@),
            Token::ObliqueBeamEnd(v) => TokenV::ObliqueBeamEnd(v@),
            Token::Bell(v) => TokenV::Bell(v@),
            Token::Flick(v) => TokenV::Flick(v@),
            Token::CriticalFlick(v) => TokenV::CriticalFlick(v@),
            Token::Tap(v) => TokenV::Tap(v@),
            Token::CriticalTap(v) => TokenV::CriticalTap(v@),
            Token::Hold(v) => TokenV::Hold(v@),
            Token::CriticalHold(v) => TokenV::CriticalHold(v@),
        }
    }
}

/// Whether `w` is one of the header command keywords.
pub open spec fn is_header_keyword(w: Seq<char>) -> bool {
    w == "VERSION"@
        || w == "CREATOR"@
        || w == "BPM_DEF"@
        || w == "MET_DEF"@
        || w == "TRESOLUTION"@
        || w == "XRESOLUTION"@
        || w == "CLK_DEF"@
        || w == "TUTORIAL"@
        || w == "BULLET_DAMAGE"@
        || w == "HARDBULLET_DAMAGE"@
        || w == "DANGERBULLET_DAMAGE"@
        || w == "BEAM_DAMAGE"@
}

/// Decoding of a header command, given its keyword.
pub open spec fn st_dispatch_header(w: Seq<char>, st: LexSt) -> (Result<TokenV, LexErrV>, LexSt) {
    if w == "VERSION"@ {
        let (r, st2) = Version::st_decode(st);
        (
            match r {
                Ok(v) => Ok(TokenV::Version(v)),
                Err(e) => Err(e),
            },
            st2,
        )
    } else if w == "CREATOR"@ {
        let (r, st2) = Creator::st_decode(st);
        (
            match r {
                Ok(v) => Ok(TokenV::Creator(v)),
                Err(e) => Err(e),
            },
            st2,
        )
    } else if w == "BPM_DEF"@ {
        let (r, st2) = BpmDefinition::st_decode(st);
        (
            match r {
                Ok(v) => Ok(TokenV::BpmDefinition(v)),
                Err(e) => Err(e),
            },
            st2,
        )
    } else if w == "MET_DEF"@ {
        let (r, st2) = MeterDefinition::st_decode(st);
        (
            match r {
                Ok(v) => Ok(TokenV::MeterDefinition(v)),
                Err(e) => Err(e),
            },
            st2,
        )
    } else if w == "TRESOLUTION"@ {
        let (r, st2) = TickResolution::st_decode(st);
        (
            match r {
                Ok(v) => Ok(TokenV::TickResolution(v)),
                Err(e) => Err(e),
            },
            st2,
        )
    } else if w == "XRESOLUTION"@ {
        let (r, st2) = XResolution::st_decode(st);
        (
            match r {
                Ok(v) => Ok(TokenV::XResolution(v)),
                Err(e) => Err(e),
            },
            st2,
        )
    } else if w == "CLK_DEF"@ {
        let (r, st2) = ClickDefinition::st_decode(st);
        (
            match r {
                Ok(v) => Ok(TokenV::ClickDefinition(v)),
                Err(e) => Err(e),
            },
            st2,
        )
    } else if w == "TUTORIAL"@ {
        let (r, st2) = Tutorial::st_decode(st);
        (
            match r {
                Ok(v) => Ok(TokenV::Tutorial(v)),
                Err(e) => Err(e),
            },
            st2,
        )
    } else if w == "BULLET_DAMAGE"@ {
        let (r, st2) = BulletDamage::st_decode(st);
        (
            match r {
                Ok(v) => Ok(TokenV::BulletDamage(v)),
                Err(e) => Err(e),
            },
            st2,
        )
    } else if w == "HARDBULLET_DAMAGE"@ {
        let (r, st2) = HardBulletDamage::st_decode(st);
        (
            match r {
                Ok(v) => Ok(TokenV::HardBulletDamage(v)),
                Err(e) => Err(e),
            },
            st2,
        )
    } else if w == "DANGERBULLET_DAMAGE"@ {
        let (r, st2) = DangerBulletDamage::st_decode(st);
        (
            match r {
                Ok(v) => Ok(TokenV::DangerBulletDamage(v)),
                Err(e) => Err(e),
            },
            st2,
        )
    } else {
        let (r, st2) = BeamDamage::st_decode(st);
        (
            match r {
                Ok(v) => Ok(TokenV::BeamDamage(v)),
                Err(e) => Err(e),
            },
            st2,
        )
    }
}

#[verifier::rlimit(100)]
fn decode_header(cursor: &mut Cursor, command: &str) -> (r: Result<Token, LexError>)
    requires
        old(cursor).wf(),
        is_header_keyword(command@),
        st_remaining_line_ok(old(cursor).st()),
    ensures
        final(cursor).wf(),
        final(cursor).st().s == old(cursor).st().s,
        final(cursor).st().pos >= old(cursor).st().pos,
        ({
            let (rs, st2) = st_dispatch_header(command@, old(cursor).st());
            final(cursor).st() == st2 && rv(r) == rs
        }),
{
    if str_eq(command, "VERSION") {
        match Version::from_cursor(cursor) {
            Ok(v) => Ok(Token::Version(v)),
            Err(e) => Err(e),
        }
    } else if str_eq(command, "CREATOR") {
        match Creator::from_cursor(cursor) {
            Ok(v) => Ok(Token::Creator(v)),
            Err(e) => Err(e),
        }
    } else if str_eq(command, "BPM_DEF") {
        match BpmDefinition::from_cursor(cursor) {
            Ok(v) => Ok(Token::BpmDefinition(v)),
            Err(e) => Err(e),
        }
    } else if str_eq(command, "MET_DEF") {
        match MeterDefinition::from_cursor(cursor) {
            Ok(v) => Ok(Token::MeterDefinition(v)),
            Err(e) => Err(e),
        }
    } else if str_eq(command, "TRESOLUTION") {
        match TickResolution::from_cursor(cursor) {
            Ok(v) => Ok(Token::TickResolution(v)),
            Err(e) => Err(e),
        }
    } else if str_eq(command, "XRESOLUTION") {
        match XResolution::from_cursor(cursor) {
            Ok(v) => Ok(Token::XResolution(v)),
            Err(e) => Err(e),
        }
    } else if str_eq(command, "CLK_DEF") {
        match ClickDefinition::from_cursor(cursor) {
            Ok(v) => Ok(Token::ClickDefinition(v)),
            Err(e) => Err(e),
        }
    } else if str_eq(command, "TUTORIAL") {
        match Tutorial::from_cursor(cursor) {
            Ok(v) => Ok(Token::Tutorial(v)),
            Err(e) => Err(e),
        }
    } else if str_eq(command, "BULLET_DAMAGE") {
        match BulletDamage::from_cursor(cursor) {
            Ok(v) => Ok(Token::BulletDamage(v)),
            Err(e) => Err(e),
        }
    } else if str_eq(command, "HARDBULLET_DAMAGE") {
        match HardBulletDamage::from_cursor(cursor) {
            Ok(v) => Ok(Token::HardBulletDamage(v)),
            Err(e) => Err(e),
        }
    } else if str_eq(command, "DANGERBULLET_DAMAGE") {
        match DangerBulletDamage::from_cursor(cursor) {
            Ok(v) => Ok(Token::DangerBulletDamage(v)),
            Err(e) => Err(e),
        }
    } else {
        match BeamDamage::from_cursor(cursor) {
            Ok(v) => Ok(Token::BeamDamage(v)),
            Err(e) => Err(e),
        }
    }
}

/// Whether `w` is one of the totals command keywords.
pub open spec fn is_totals_keyword(w: Seq<char>) -> bool {
    w == "T_TOTAL"@
        || w == "T_TAP"@
        || w == "T_HOLD"@
        || w == "T_SIDE"@
        || w == "T_SHOLD"@
        || w == "T_FLICK"@
        || w == "T_BELL"@
        || w == "PROGJUDGE_BPM"@
        || w == "BPL"@
        || w == "BTP"@
}

/// Decoding of a totals command, given its keyword.
pub open spec fn st_dispatch_totals(w: Seq<char>, st: LexSt) -> (Result<TokenV, LexErrV>, LexSt) {
    if w == "T_TOTAL"@ {
        let (r, st2) = TotalNotes::st_decode(st);
        (
            match r {
                Ok(v) => Ok(TokenV::TotalNotes(v)),
                Err(e) => Err(e),
            },
            st2,
        )
    } else if w == "T_TAP"@ {
        let (r, st2) = TotalTapNotes::st_decode(st);
        (
            match r {
                Ok(v) => Ok(TokenV::TotalTapNotes(v)),
                Err(e) => Err(e),
            },
            st2,
        )
    } else if w == "T_HOLD"@ {
        let (r, st2) = TotalHoldNotes::st_decode(st);
        (
            match r {
                Ok(v) => Ok(TokenV::TotalHoldNotes(v)),
                Err(e) => Err(e),
            },
            st2,
        )
    } else if w == "T_SIDE"@ {
        let (r, st2) = TotalSideNotes::st_decode(st);
        (
            match r {
                Ok(v) => Ok(TokenV::TotalSideNotes(v)),
                Err(e) => Err(e),
            },
            st2,
        )
    } else if w == "T_SHOLD"@ {
        let (r, st2) = TotalSideHoldNotes::st_decode(st);
        (
            match r {
                Ok(v) => Ok(TokenV::TotalSideHoldNotes(v)),
                Err(e) => Err(e),
            },
            st2,
        )
    } else if w == "T_FLICK"@ {
        let (r, st2) = TotalFlickNotes::st_decode(st);
        (
            match r {
                Ok(v) => Ok(TokenV::TotalFlickNotes(v)),
                Err(e) => Err(e),
            },
            st2,
        )
    } else if w == "T_BELL"@ {
        let (r, st2) = TotalBellNotes::st_decode(st);
        (
            match r {
                Ok(v) => Ok(TokenV::TotalBellNotes(v)),
                Err(e) => Err(e),
            },
            st2,
        )
    } else if w == "PROGJUDGE_BPM"@ {
        let (r, st2) = ProgJudgeBpm::st_decode(st);
        (
            match r {
                Ok(v) => Ok(TokenV::ProgJudgeBpm(v)),
                Err(e) => Err(e),
            },
            st2,
        )
    } else if w == "BPL"@ {
        let (r, st2) = BulletPalette::st_decode(st);
        (
            match r {
                Ok(v) => Ok(TokenV::BulletPalette(v)),
                Err(e) => Err(e),
            },
            st2,
        )
    } else {
        (Ok(TokenV::Btp(Btp)), st)
    }
}

#[verifier::rlimit(100)]
fn decode_totals(cursor: &mut Cursor, command: &str) -> (r: Result<Token, LexError>)
    requires
        old(cursor).wf(),
        is_totals_keyword(command@),
    ensures
        final(cursor).wf(),
        final(cursor).st().s == old(cursor).st().s,
        final(cursor).st().pos >= old(cursor).st().pos,
        ({
            let (rs, st2) = st_dispatch_totals(command@, old(cursor).st());
            final(cursor).st() == st2 && rv(r) == rs
        }),
{
    if str_eq(command, "T_TOTAL") {
        match TotalNotes::from_cursor(cursor) {
            Ok(v) => Ok(Token::TotalNotes(v)),
            Err(e) => Err(e),
        }
    } else if str_eq(command, "T_TAP") {
        match TotalTapNotes::from_cursor(cursor) {
            Ok(v) => Ok(Token::TotalTapNotes(v)),
            Err(e) => Err(e),
        }
    } else if str_eq(command, "T_HOLD") {
        match TotalHoldNotes::from_cursor(cursor) {
            Ok(v) => Ok(Token::TotalHoldNotes(v)),
            Err(e) => Err(e),
        }
    } else if str_eq(command, "T_SIDE") {
        match TotalSideNotes::from_cursor(cursor) {
            Ok(v) => Ok(Token::TotalSideNotes(v)),
            Err(e) => Err(e),
        }
    } else if str_eq(command, "T_SHOLD") {
        match TotalSideHoldNotes::from_cursor(cursor) {
            Ok(v) => Ok(Token::TotalSideHoldNotes(v)),
            Err(e) => Err(e),
        }
    } else if str_eq(command, "T_FLICK") {
        match TotalFlickNotes::from_cursor(cursor) {
            Ok(v) => Ok(Token::TotalFlickNotes(v)),
            Err(e) => Err(e),
        }
    } else if str_eq(command, "T_BELL") {
        match TotalBellNotes::from_cursor(cursor) {
            Ok(v) => Ok(Token::TotalBellNotes(v)),
            Err(e) => Err(e),
        }
    } else if str_eq(command, "PROGJUDGE_BPM") {
        match ProgJudgeBpm::from_cursor(cursor) {
            Ok(v) => Ok(Token::ProgJudgeBpm(v)),
            Err(e) => Err(e),
        }
    } else if str_eq(command, "BPL") {
        match BulletPalette::from_cursor(cursor) {
            Ok(v) => Ok(Token::BulletPalette(v)),
            Err(e) => Err(e),
        }
    } else {
        Ok(Token::Btp(Btp))
    }
}

/// Whether `w` is one of the composition command keywords.
pub open spec fn is_composition_keyword(w: Seq<char>) -> bool {
    w == "BPM"@
        || w == "MET"@
        || w == "CLK"@
        || w == "SFL"@
        || w == "EST"@
        || w == "WLS"@
        || w == "WLN"@
        || w == "WLE"@
        || w == "WRS"@
        || w == "WRN"@
        || w == "WRE"@
}

/// Decoding of a composition command, given its keyword.
pub open spec fn st_dispatch_composition(w: Seq<char>, st: LexSt) -> (Result<TokenV, LexErrV>, LexSt) {
    if w == "BPM"@ {
        let (r, st2) = BpmChange::st_decode(st);
        (
            match r {
                Ok(v) => Ok(TokenV::BpmChange(v)),
                Err(e) => Err(e),
            },
            st2,
        )
    } else if w == "MET"@ {
        let (r, st2) = MeterChange::st_decode(st);
        (
            match r {
                Ok(v) => Ok(TokenV::MeterChange(v)),
                Err(e) => Err(e),
            },
            st2,
        )
    } else if w == "CLK"@ {
        let (r, st2) = ClickSound::st_decode(st);
        (
            match r {
                Ok(v) => Ok(TokenV::ClickSound(v)),
                Err(e) => Err(e),
            },
            st2,
        )
    } else if w == "SFL"@ {
        let (r, st2) = Soflan::st_decode(st);
        (
            match r {
                Ok(v) => Ok(TokenV::Soflan(v)),
                Err(e) => Err(e),
            },
            st2,
        )
    } else if w == "EST"@ {
        let (r, st2) = EnemySet::st_decode(st);
        (
            match r {
                Ok(v) => Ok(TokenV::EnemySet(v)),
                Err(e) => Err(e),
            },
            st2,
        )
    } else if w == "WLS"@ {
        let (r, st2) = WallPoint::st_decode(st);
        (
            match r {
                Ok(v) => Ok(TokenV::WallLeftStart(v)),
                Err(e) => Err(e),
            },
            st2,
        )
    } else if w == "WLN"@ {
        let (r, st2) = WallPoint::st_decode(st);
        (
            match r {
                Ok(v) => Ok(TokenV::WallLeftNext(v)),
                Err(e) => Err(e),
            },
            st2,
        )
    } else if w == "WLE"@ {
        let (r, st2) = WallPoint::st_decode(st);
        (
            match r {
                Ok(v) => Ok(TokenV::WallLeftEnd(v)),
                Err(e) => Err(e),
            },
            st2,
        )
    } else if w == "WRS"@ {
        let (r, st2) = WallPoint::st_decode(st);
        (
            match r {
                Ok(v) => Ok(TokenV::WallRightStart(v)),
                Err(e) => Err(e),
            },
            st2,
        )
    } else if w == "WRN"@ {
        let (r, st2) = WallPoint::st_decode(st);
        (
            match r {
                Ok(v) => Ok(TokenV::WallRightNext(v)),
                Err(e) => Err(e),
            },
            st2,
        )
    } else {
        let (r, st2) = WallPoint::st_decode(st);
        (
            match r {
                Ok(v) => Ok(TokenV::WallRightEnd(v)),
                Err(e) => Err(e),
            },
            st2,
        )
    }
}

#[verifier::rlimit(100)]
fn decode_composition(cursor: &mut Cursor, command: &str) -> (r: Result<Token, LexError>)
    requires
        old(cursor).wf(),
        is_composition_keyword(command@),
    ensures
        final(cursor).wf(),
        final(cursor).st().s == old(cursor).st().s,
        final(cursor).st().pos >= old(cursor).st().pos,
        ({
            let (rs, st2) = st_dispatch_composition(command@, old(cursor).st());
            final(cursor).st() == st2 && rv(r) == rs
        }),
{
    if str_eq(command, "BPM") {
        match BpmChange::from_cursor(cursor) {
            Ok(v) => Ok(Token::BpmChange(v)),
            Err(e) => Err(e),
        }
    } else if str_eq(command, "MET") {
        match MeterChange::from_cursor(cursor) {
            Ok(v) => Ok(Token::MeterChange(v)),
            Err(e) => Err(e),
        }
    } else if str_eq(command, "CLK") {
        match ClickSound::from_cursor(cursor) {
            Ok(v) => Ok(Token::ClickSound(v)),
            Err(e) => Err(e),
        }
    } else if str_eq(command, "SFL") {
        match Soflan::from_cursor(cursor) {
            Ok(v) => Ok(Token::Soflan(v)),
            Err(e) => Err(e),
        }
    } else if str_eq(command, "EST") {
        match EnemySet::from_cursor(cursor) {
            Ok(v) => Ok(Token::EnemySet(v)),
            Err(e) => Err(e),
        }
    } else if str_eq(command, "WLS") {
        match WallPoint::from_cursor(cursor) {
            Ok(v) => Ok(Token::WallLeftStart(v)),
            Err(e) => Err(e),
        }
    } else if str_eq(command, "WLN") {
        match WallPoint::from_cursor(cursor) {
            Ok(v) => Ok(Token::WallLeftNext(v)),
            Err(e) => Err(e),
        }
    } else if str_eq(command, "WLE") {
        match WallPoint::from_cursor(cursor) {
            Ok(v) => Ok(Token::WallLeftEnd(v)),
            Err(e) => Err(e),
        }
    } else if str_eq(command, "WRS") {
        match WallPoint::from_cursor(cursor) {
            Ok(v) => Ok(Token::WallRightStart(v)),
            Err(e) => Err(e),
        }
    } else if str_eq(command, "WRN") {
        match WallPoint::from_cursor(cursor) {
            Ok(v) => Ok(Token::WallRightNext(v)),
            Err(e) => Err(e),
        }
    } else {
        match WallPoint::from_cursor(cursor) {
            Ok(v) => Ok(Token::WallRightEnd(v)),
            Err(e) => Err(e),
        }
    }
}

/// Whether `w` is one of the lanes command keywords.
pub open spec fn is_lanes_keyword(w: Seq<char>) -> bool {
    w == "LLS"@
        || w == "LLN"@
        || w == "LLE"@
        || w == "LCS"@
        || w == "LCN"@
        || w == "LCE"@
        || w == "LRS"@
        || w == "LRN"@
        || w == "LRE"@
        || w == "CLS"@
        || w == "CLN"@
        || w == "CLE"@
        || w == "ENS"@
        || w == "ENN"@
        || w == "ENE"@
}

/// Decoding of a lanes command, given its keyword.
pub open spec fn st_dispatch_lanes(w: Seq<char>, st: LexSt) -> (Result<TokenV, LexErrV>, LexSt) {
    if w == "LLS"@ {
        let (r, st2) = LanePoint::st_decode(st);
        (
            match r {
                Ok(v) => Ok(TokenV::LaneLeftStart(v)),
                Err(e) => Err(e),
            },
            st2,
        )
    } else if w == "LLN"@ {
        let (r, st2) = LanePoint::st_decode(st);
        (
            match r {
                Ok(v) => Ok(TokenV::LaneLeftNext(v)),
                Err(e) => Err(e),
            },
            st2,
        )
    } else if w == "LLE"@ {
        let (r, st2) = LanePoint::st_decode(st);
        (
            match r {
                Ok(v) => Ok(TokenV::LaneLeftEnd(v)),
                Err(e) => Err(e),
            },
            st2,
        )
    } else if w == "LCS"@ {
        let (r, st2) = LanePoint::st_decode(st);
        (
            match r {
                Ok(v) => Ok(TokenV::LaneCenterStart(v)),
                Err(e) => Err(e),
            },
            st2,
        )
    } else if w == "LCN"@ {
        let (r, st2) = LanePoint::st_decode(st);
        (
            match r {
                Ok(v) => Ok(TokenV::LaneCenterNext(v)),
                Err(e) => Err(e),
            },
            st2,
        )
    } else if w == "LCE"@ {
        let (r, st2) = LanePoint::st_decode(st);
        (
            match r {
                Ok(v) => Ok(TokenV::LaneCenterEnd(v)),
                Err(e) => Err(e),
            },
            st2,
        )
    } else if w == "LRS"@ {
        let (r, st2) = LanePoint::st_decode(st);
        (
            match r {
                Ok(v) => Ok(TokenV::LaneRightStart(v)),
                Err(e) => Err(e),
            },
            st2,
        )
    } else if w == "LRN"@ {
        let (r, st2) = LanePoint::st_decode(st);
        (
            match r {
                Ok(v) => Ok(TokenV::LaneRightNext(v)),
                Err(e) => Err(e),
            },
            st2,
        )
    } else if w == "LRE"@ {
        let (r, st2) = LanePoint::st_decode(st);
        (
            match r {
                Ok(v) => Ok(TokenV::LaneRightEnd(v)),
                Err(e) => Err(e),
            },
            st2,
        )
    } else if w == "CLS"@ {
        let (r, st2) = ColorfulLanePoint::st_decode(st);
        (
            match r {
                Ok(v) => Ok(TokenV::ColorfulLaneStart(v)),
                Err(e) => Err(e),
            },
            st2,
        )
    } else if w == "CLN"@ {
        let (r, st2) = ColorfulLanePoint::st_decode(st);
        (
            match r {
                Ok(v) => Ok(TokenV::ColorfulLaneNext(v)),
                Err(e) => Err(e),
            },
            st2,
        )
    } else if w == "CLE"@ {
        let (r, st2) = ColorfulLanePoint::st_decode(st);
        (
            match r {
                Ok(v) => Ok(TokenV::ColorfulLaneEnd(v)),
                Err(e) => Err(e),
            },
            st2,
        )
    } else if w == "ENS"@ {
        let (r, st2) = EnemyLanePoint::st_decode(st);
        (
            match r {
                Ok(v) => Ok(TokenV::EnemyLaneStart(v)),
                Err(e) => Err(e),
            },
            st2,
        )
    } else if w == "ENN"@ {
        let (r, st2) = EnemyLanePoint::st_decode(st);
        (
            match r {
                Ok(v) => Ok(TokenV::EnemyLaneNext(v)),
                Err(e) => Err(e),
            },
            st2,
        )
    } else {
        let (r, st2) = EnemyLanePoint::st_decode(st);
        (
            match r {
                Ok(v) => Ok(TokenV::EnemyLaneEnd(v)),
                Err(e) => Err(e),
            },
            st2,
        )
    }
}

#[verifier::rlimit(100)]
fn decode_lanes(cursor: &mut Cursor, command: &str) -> (r: Result<Token, LexError>)
    requires
        old(cursor).wf(),
        is_lanes_keyword(command@),
    ensures
        final(cursor).wf(),
        final(cursor).st().s == old(cursor).st().s,
        final(cursor).st().pos >= old(cursor).st().pos,
        ({
            let (rs, st2) = st_dispatch_lanes(command@, old(cursor).st());
            final(cursor).st() == st2 && rv(r) == rs
        }),
{
    if str_eq(command, "LLS") {
        match LanePoint::from_cursor(cursor) {
            Ok(v) => Ok(Token::LaneLeftStart(v)),
            Err(e) => Err(e),
        }
    } else if str_eq(command, "LLN") {
        match LanePoint::from_cursor(cursor) {
            Ok(v) => Ok(Token::LaneLeftNext(v)),
            Err(e) => Err(e),
        }
    } else if str_eq(command, "LLE") {
        match LanePoint::from_cursor(cursor) {
            Ok(v) => Ok(Token::LaneLeftEnd(v)),
            Err(e) => Err(e),
        }
    } else if str_eq(command, "LCS") {
        match LanePoint::from_cursor(cursor) {
            Ok(v) => Ok(Token::LaneCenterStart(v)),
            Err(e) => Err(e),
        }
    } else if str_eq(command, "LCN") {
        match LanePoint::from_cursor(cursor) {
            Ok(v) => Ok(Token::LaneCenterNext(v)),
            Err(e) => Err(e),
        }
    } else if str_eq(command, "LCE") {
        match LanePoint::from_cursor(cursor) {
            Ok(v) => Ok(Token::LaneCenterEnd(v)),
            Err(e) => Err(e),
        }
    } else if str_eq(command, "LRS") {
        match LanePoint::from_cursor(cursor) {
            Ok(v) => Ok(Token::LaneRightStart(v)),
            Err(e) => Err(e),
        }
    } else if str_eq(command, "LRN") {
        match LanePoint::from_cursor(cursor) {
            Ok(v) => Ok(Token::LaneRightNext(v)),
            Err(e) => Err(e),
        }
    } else if str_eq(command, "LRE") {
        match LanePoint::from_cursor(cursor) {
            Ok(v) => Ok(Token::LaneRightEnd(v)),
            Err(e) => Err(e),
        }
    } else if str_eq(command, "CLS") {
        match ColorfulLanePoint::from_cursor(cursor) {
            Ok(v) => Ok(Token::ColorfulLaneStart(v)),
            Err(e) => Err(e),
        }
    } else if str_eq(command, "CLN") {
        match ColorfulLanePoint::from_cursor(cursor) {
            Ok(v) => Ok(Token::ColorfulLaneNext(v)),
            Err(e) => Err(e),
        }
    } else if str_eq(command, "CLE") {
        match ColorfulLanePoint::from_cursor(cursor) {
            Ok(v) => Ok(Token::ColorfulLaneEnd(v)),
            Err(e) => Err(e),
        }
    } else if str_eq(command, "ENS") {
        match EnemyLanePoint::from_cursor(cursor) {
            Ok(v) => Ok(Token::EnemyLaneStart(v)),
            Err(e) => Err(e),
        }
    } else if str_eq(command, "ENN") {
        match EnemyLanePoint::from_cursor(cursor) {
            Ok(v) => Ok(Token::EnemyLaneNext(v)),
            Err(e) => Err(e),
        }
    } else {
        match EnemyLanePoint::from_cursor(cursor) {
            Ok(v) => Ok(Token::EnemyLaneEnd(v)),
            Err(e) => Err(e),
        }
    }
}

/// Whether `w` is one of the events command keywords.
pub open spec fn is_events_keyword(w: Seq<char>) -> bool {
    w == "LDP"@
        || w == "LBK"@
        || w == "BLT"@
}

/// Decoding of a events command, given its keyword.
pub open spec fn st_dispatch_events(w: Seq<char>, st: LexSt) -> (Result<TokenV, LexErrV>, LexSt) {
    if w == "LDP"@ {
        let (r, st2) = LaneEvent::st_decode(st);
        (
            match r {
                Ok(v) => Ok(TokenV::LaneDisappearance(v)),
                Err(e) => Err(e),
            },
            st2,
        )
    } else if w == "LBK"@ {
        let (r, st2) = LaneEvent::st_decode(st);
        (
            match r {
                Ok(v) => Ok(TokenV::LaneBlock(v)),
                Err(e) => Err(e),
            },
            st2,
        )
    } else {
        let (r, st2) = Bullet::st_decode(st);
        (
            match r {
                Ok(v) => Ok(TokenV::Bullet(v)),
                Err(e) => Err(e),
            },
            st2,
        )
    }
}

#[verifier::rlimit(100)]
fn decode_events(cursor: &mut Cursor, command: &str) -> (r: Result<Token, LexError>)
    requires
        old(cursor).wf(),
        is_events_keyword(command@),
    ensures
        final(cursor).wf(),
        final(cursor).st().s == old(cursor).st().s,
        final(cursor).st().pos >= old(cursor).st().pos,
        ({
            let (rs, st2) = st_dispatch_events(command@, old(cursor).st());
            final(cursor).st() == st2 && rv(r) == rs
        }),
{
    if str_eq(command, "LDP") {
        match LaneEvent::from_cursor(cursor) {
            Ok(v) => Ok(Token::LaneDisappearance(v)),
            Err(e) => Err(e),
        }
    } else if str_eq(command, "LBK") {
        match LaneEvent::from_cursor(cursor) {
            Ok(v) => Ok(Token::LaneBlock(v)),
            Err(e) => Err(e),
        }
    } else {
        match Bullet::from_cursor(cursor) {
            Ok(v) => Ok(Token::Bullet(v)),
            Err(e) => Err(e),
        }
    }
}

/// Whether `w` is one of the beams command keywords.
pub open spec fn is_beams_keyword(w: Seq<char>) -> bool {
    w == "BMS"@
        || w == "BMN"@
        || w == "BME"@
        || w == "OBS"@
        || w == "OBN"@
        || w == "OBE"@
}

/// Decoding of a beams command, given its keyword.
pub open spec fn st_dispatch_beams(w: Seq<char>, st: LexSt) -> (Result<TokenV, LexErrV>, LexSt) {
    if w == "BMS"@ {
        let (r, st2) = BeamPoint::st_decode(st);
        (
            match r {
                Ok(v) => Ok(TokenV::BeamStart(v)),
                Err(e) => Err(e),
            },
            st2,
        )
    } else if w == "BMN"@ {
        let (r, st2) = BeamPoint::st_decode(st);
        (
            match r {
                Ok(v) => Ok(TokenV::BeamNext(v)),
                Err(e) => Err(e),
            },
            st2,
        )
    } else if w == "BME"@ {
        let (r, st2) = BeamPoint::st_decode(st);
        (
            match r {
                Ok(v) => Ok(TokenV::BeamEnd(v)),
                Err(e) => Err(e),
            },
            st2,
        )
    } else if w == "OBS"@ {
        let (r, st2) = ObliqueBeamPoint::st_decode(st);
        (
            match r {
                Ok(v) => Ok(TokenV::ObliqueBeamStart(v)),
                Err(e) => Err(e),
            },
            st2,
        )
    } else if w == "OBN"@ {
        let (r, st2) = ObliqueBeamPoint::st_decode(st);
        (
            match r {
                Ok(v) => Ok(TokenV::ObliqueBeamNext(v)),
                Err(e) => Err(e),
            },
            st2,
        )
    } else {
        let (r, st2) = ObliqueBeamPoint::st_decode(st);
        (
            match r {
                Ok(v) => Ok(TokenV::ObliqueBeamEnd(v)),
                Err(e) => Err(e),
            },
            st2,
        )
    }
}

#[verifier::rlimit(100)]
fn decode_beams(cursor: &mut Cursor, command: &str) -> (r: Result<Token, LexError>)
    requires
        old(cursor).wf(),
        is_beams_keyword(command@),
    ensures
        final(cursor).wf(),
        final(cursor).st().s == old(cursor).st().s,
        final(cursor).st().pos >= old(cursor).st().pos,
        ({
            let (rs, st2) = st_dispatch_beams(command@, old(cursor).st());
            final(cursor).st() == st2 && rv(r) == rs
        }),
{
    if str_eq(command, "BMS") {
        match BeamPoint::from_cursor(cursor) {
            Ok(v) => Ok(Token::BeamStart(v)),
            Err(e) => Err(e),
        }
    } else if str_eq(command, "BMN") {
        match BeamPoint::from_cursor(cursor) {
            Ok(v) => Ok(Token::BeamNext(v)),
            Err(e) => Err(e),
        }
    } else if str_eq(command, "BME") {
        match BeamPoint::from_cursor(cursor) {
            Ok(v) => Ok(Token::BeamEnd(v)),
            Err(e) => Err(e),
        }
    } else if str_eq(command, "OBS") {
        match ObliqueBeamPoint::from_cursor(cursor) {
            Ok(v) => Ok(Token::ObliqueBeamStart(v)),
            Err(e) => Err(e),
        }
    } else if str_eq(command, "OBN") {
        match ObliqueBeamPoint::from_cursor(cursor) {
            Ok(v) => Ok(Token::ObliqueBeamNext(v)),
            Err(e) => Err(e),
        }
    } else {
        match ObliqueBeamPoint::from_cursor(cursor) {
            Ok(v) => Ok(Token::ObliqueBeamEnd(v)),
            Err(e) => Err(e),
        }
    }
}

/// Whether `w` is one of the notes command keywords.
pub open spec fn is_notes_keyword(w: Seq<char>) -> bool {
    w == "BEL"@
        || w == "FLK"@
        || w == "CFK"@
        || w == "TAP"@
        || w == "CTP"@
        || w == "XTP"@
        || w == "HLD"@
        || w == "CHD"@
        || w == "XHD"@
}

/// Decoding of a notes command, given its keyword.
pub open spec fn st_dispatch_notes(w: Seq<char>, st: LexSt) -> (Result<TokenV, LexErrV>, LexSt) {
    if w == "BEL"@ {
        let (r, st2) = Bell::st_decode(st);
        (
            match r {
                Ok(v) => Ok(TokenV::Bell(v)),
                Err(e) => Err(e),
            },
            st2,
        )
    } else if w == "FLK"@ {
        let (r, st2) = Flick::st_decode(st);
        (
            match r {
                Ok(v) => Ok(TokenV::Flick(v)),
                Err(e) => Err(e),
            },
            st2,
        )
    } else if w == "CFK"@ {
        let (r, st2) = Flick::st_decode(st);
        (
            match r {
                Ok(v) => Ok(TokenV::CriticalFlick(v)),
                Err(e) => Err(e),
            },
            st2,
        )
    } else if w == "TAP"@ {
        let (r, st2) = Tap::st_decode(st);
        (
            match r {
                Ok(v) => Ok(TokenV::Tap(v)),
                Err(e) => Err(e),
            },
            st2,
        )
    } else if w == "CTP"@ || w == "XTP"@ {
        let (r, st2) = Tap::st_decode(st);
        (
            match r {
                Ok(v) => Ok(TokenV::CriticalTap(v)),
                Err(e) => Err(e),
            },
            st2,
        )
    } else if w == "HLD"@ {
        let (r, st2) = Hold::st_decode(st);
        (
            match r {
                Ok(v) => Ok(TokenV::Hold(v)),
                Err(e) => Err(e),
            },
            st2,
        )
    } else {
        let (r, st2) = Hold::st_decode(st);
        (
            match r {
                Ok(v) => Ok(TokenV::CriticalHold(v)),
                Err(e) => Err(e),
            },
            st2,
        )
    }
}

#[verifier::rlimit(100)]
fn decode_notes(cursor: &mut Cursor, command: &str) -> (r: Result<Token, LexError>)
    requires
        old(cursor).wf(),
        is_notes_keyword(command@),
    ensures
        final(cursor).wf(),
        final(cursor).st().s == old(cursor).st().s,
        final(cursor).st().pos >= old(cursor).st().pos,
        ({
            let (rs, st2) = st_dispatch_notes(command@, old(cursor).st());
            final(cursor).st() == st2 && rv(r) == rs
        }),
{
    if str_eq(command, "BEL") {
        match Bell::from_cursor(cursor) {
            Ok(v) => Ok(Token::Bell(v)),
            Err(e) => Err(e),
        }
    } else if str_eq(command, "FLK") {
        match Flick::from_cursor(cursor) {
            Ok(v) => Ok(Token::Flick(v)),
            Err(e) => Err(e),
        }
    } else if str_eq(command, "CFK") {
        match Flick::from_cursor(cursor) {
            Ok(v) => Ok(Token::CriticalFlick(v)),
            Err(e) => Err(e),
        }
    } else if str_eq(command, "TAP") {
        match Tap::from_cursor(cursor) {
            Ok(v) => Ok(Token::Tap(v)),
            Err(e) => Err(e),
        }
    } else if str_eq(command, "CTP") || str_eq(command, "XTP") {
        match Tap::from_cursor(cursor) {
            Ok(v) => Ok(Token::CriticalTap(v)),
            Err(e) => Err(e),
        }
    } else if str_eq(command, "HLD") {
        match Hold::from_cursor(cursor) {
            Ok(v) => Ok(Token::Hold(v)),
            Err(e) => Err(e),
        }
    } else {
        match Hold::from_cursor(cursor) {
            Ok(v) => Ok(Token::CriticalHold(v)),
            Err(e) => Err(e),
        }
    }
}

impl Token {
    /// Decoding one whole command from the cursor state: the keyword token
    /// selects the payload decoder; a token starting with `[` discards the
    /// rest of its line.
    #[verifier::opaque]
    pub open spec fn st_decode(st: LexSt) -> (Result<TokenV, LexErrV>, LexSt) {
        let (t, st1) = st_next_token(st);
        match t {
            None => (Err(expected_err(st, "valid command"@)), st),
            Some(w) => {
                if w.len() > 0 && w[0] == '[' {
                    let (rest, st2) = st_remaining_line(st1);
                    (Ok(TokenV::SectionName), st2)
                } else if is_header_keyword(w) {
                    st_dispatch_header(w, st1)
                } else if is_totals_keyword(w) {
                    st_dispatch_totals(w, st1)
                } else if is_composition_keyword(w) {
                    st_dispatch_composition(w, st1)
                } else if is_lanes_keyword(w) {
                    st_dispatch_lanes(w, st1)
                } else if is_events_keyword(w) {
                    st_dispatch_events(w, st1)
                } else if is_beams_keyword(w) {
                    st_dispatch_beams(w, st1)
                } else if is_notes_keyword(w) {
                    st_dispatch_notes(w, st1)
                } else {
                    (
                        Err(
                            LexErrV::UnknownCommand {
                                line: st1.line as usize as int,
                                col: st1.col as usize as int,
                            },
                        ),
                        st1,
                    )
                }
            },
        }
    }

    #[verifier::rlimit(100)]
    pub(crate) fn from_cursor(cursor: &mut Cursor) -> (r: Result<Self, LexError>)
        requires
            old(cursor).wf(),
        ensures
            final(cursor).wf(),
            final(cursor).st().s == old(cursor).st().s,
            final(cursor).st().pos >= old(cursor).st().pos,
            r is Ok ==> final(cursor).st().pos > old(cursor).st().pos,
            ({
                let (rs, st2) = Token::st_decode(old(cursor).st());
                final(cursor).st() == st2 && rv(r) == rs
            }),
    {
        proof {
            reveal(Token::st_decode);
        }
        let ghost st0 = cursor.st();
        let command = match cursor.next_token() {
            Some(w) => w,
            None => {
                return Err(cursor.err_expected_token("valid command"));
            },
        };
        proof {
            lemma_token_then_line_ok(st0);
        }
        if command.unicode_len() > 0 && command.get_char(0) == '[' {
            cursor.current_remaining_line();
            return Ok(Self::SectionName);
        }
        if str_eq(command, "VERSION")
            || str_eq(command, "CREATOR")
            || str_eq(command, "BPM_DEF")
            || str_eq(command, "MET_DEF")
            || str_eq(command, "TRESOLUTION")
            || str_eq(command, "XRESOLUTION")
            || str_eq(command, "CLK_DEF")
            || str_eq(command, "TUTORIAL")
            || str_eq(command, "BULLET_DAMAGE")
            || str_eq(command, "HARDBULLET_DAMAGE")
            || str_eq(command, "DANGERBULLET_DAMAGE")
            || str_eq(command, "BEAM_DAMAGE") {
            decode_header(cursor, command)
        } else if str_eq(command, "T_TOTAL")
            || str_eq(command, "T_TAP")
            || str_eq(command, "T_HOLD")
            || str_eq(command, "T_SIDE")
            || str_eq(command, "T_SHOLD")
            || str_eq(command, "T_FLICK")
            || str_eq(command, "T_BELL")
            || str_eq(command, "PROGJUDGE_BPM")
            || str_eq(command, "BPL")
            || str_eq(command, "BTP") {
            decode_totals(cursor, command)
        } else if str_eq(command, "BPM")
            || str_eq(command, "MET")
            || str_eq(command, "CLK")
            || str_eq(command, "SFL")
            || str_eq(command, "EST")
            || str_eq(command, "WLS")
            || str_eq(command, "WLN")
            || str_eq(command, "WLE")
            || str_eq(command, "WRS")
            || str_eq(command, "WRN")
            || str_eq(command, "WRE") {
            decode_composition(cursor, command)
        } else if str_eq(command, "LLS")
            || str_eq(command, "LLN")
            || str_eq(command, "LLE")
            || str_eq(command, "LCS")
            || str_eq(command, "LCN")
            || str_eq(command, "LCE")
            || str_eq(command, "LRS")
            || str_eq(command, "LRN")
            || str_eq(command, "LRE")
            || str_eq(command, "CLS")
            || str_eq(command, "CLN")
            || str_eq(command, "CLE")
            || str_eq(command, "ENS")
            || str_eq(command, "ENN")
            || str_eq(command, "ENE") {
            decode_lanes(cursor, command)
        } else if str_eq(command, "LDP")
            || str_eq(command, "LBK")
            || str_eq(command, "BLT") {
            decode_events(cursor, command)
        } else if str_eq(command, "BMS")
            || str_eq(command, "BMN")
            || str_eq(command, "BME")
            || str_eq(command, "OBS")
            || str_eq(command, "OBN")
            || str_eq(command, "OBE") {
            decode_beams(cursor, command)
        } else if str_eq(command, "BEL")
            || str_eq(command, "FLK")
            || str_eq(command, "CFK")
            || str_eq(command, "TAP")
            || str_eq(command, "CTP")
            || str_eq(command, "XTP")
            || str_eq(command, "HLD")
            || str_eq(command, "CHD")
            || str_eq(command, "XHD") {
            decode_notes(cursor, command)
        } else {
            Err(LexError::UnknownCommand { line: cursor.line(), col: cursor.col() })
        }
    }
}



/// The spec-level mirror of a token sequence.
pub open spec fn token_views(tokens: Seq<Token>) -> Seq<TokenV> {
    tokens.map_values(|t: Token| t@)
}

/// An ordered, append-only sequence of decoded tokens, in source order.
#[derive(Debug)]
pub struct TokenStream {
    tokens: Vec<Token>,
}

impl View for TokenStream {
    type V = Seq<TokenV>;

    closed spec fn view(&self) -> Seq<TokenV> {
        token_views(self.tokens@)
    }
}

impl TokenStream {
    pub(crate) fn from_tokens(tokens: Vec<Token>) -> (r: Self)
        ensures
            r@ == token_views(tokens@),
    {
        Self { tokens }
    }

    pub(crate) fn into_tokens(self) -> (r: Vec<Token>)
        ensures
            token_views(r@) == self@,
    {
        self.tokens
    }

    /// The number of decoded tokens.
    pub fn len(&self) -> (r: usize)
        ensures
            r == self@.len(),
    {
        self.tokens.len()
    }

    /// The token at position `i`, in source order.
    pub fn get(&self, i: usize) -> (r: &Token)
        requires
            i < self@.len(),
        ensures
            r@ == self@[i as int],
    {
        &self.tokens[i]
    }
}

} // verus!
