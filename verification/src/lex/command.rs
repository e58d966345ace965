//! Payload types for each chart command, and decoders for the fixed keyword
//! enums that appear among command arguments.
//!
//! Numeric command arguments that the chart format treats as floating-point
//! (BPM values, damage values, speeds) are carried as their validated literal
//! text: the pipeline never interprets them, it only checks their syntax and
//! hands them through, so conversion is left to the consumer.

use crate::lex::chars::str_eq;
use crate::lex::cursor::{st_next_token, Cursor, LexSt};
use crate::lex::{expected_err, rv, LexErrV, LexError};
use vstd::prelude::*;

verus! {

#[derive(Clone, Copy, Debug, PartialEq, Eq, Hash)]
pub struct Version {
    pub major: u32,
    pub minor: u32,
    pub release: u32,
}

impl View for Version {
    type V = Version;

    open spec fn view(&self) -> Version {
        *self
    }
}

#[derive(Clone, Debug, PartialEq, Eq, Hash)]
pub struct Creator {
    pub name: String,
}

pub ghost struct CreatorV {
    pub name: Seq<char>,
}

impl View for Creator {
    type V = CreatorV;

    open spec fn view(&self) -> CreatorV {
        CreatorV { name: self.name@ }
    }
}

/// Values are the literal texts of floating-point numbers.
#[derive(Clone, Debug, PartialEq, Eq, Hash)]
pub struct BpmDefinition {
    pub first: String,
    pub common: String,
    pub minimum: String,
    pub maximum: String,
}

pub ghost struct BpmDefinitionV {
    pub first: Seq<char>,
    pub common: Seq<char>,
    pub minimum: Seq<char>,
    pub maximum: Seq<char>,
}

impl View for BpmDefinition {
    type V = BpmDefinitionV;

    open spec fn view(&self) -> BpmDefinitionV {
        BpmDefinitionV {
            first: self.first@,
            common: self.common@,
            minimum: self.minimum@,
            maximum: self.maximum@,
        }
    }
}

#[derive(Clone, Copy, Debug, PartialEq, Eq, Hash, Default)]
pub struct MeterDefinition {
    /// Time signature numerator, number of beats in a measure.
    pub num_beats: u32,
    /// Time signature denominator, value of a beat in a measure.
    pub note_value: u32,
}

impl View for MeterDefinition {
    type V = MeterDefinition;

    open spec fn view(&self) -> MeterDefinition {
        *self
    }
}

#[derive(Clone, Copy, Debug, PartialEq, Eq, Hash)]
pub struct TickResolution {
    pub resolution: u32,
}

impl View for TickResolution {
    type V = TickResolution;

    open spec fn view(&self) -> TickResolution {
        *self
    }
}

#[derive(Clone, Copy, Debug, PartialEq, Eq, Hash)]
pub struct XResolution {
    pub resolution: u32,
}

impl View for XResolution {
    type V = XResolution;

    open spec fn view(&self) -> XResolution {
        *self
    }
}

#[derive(Clone, Copy, Debug, PartialEq, Eq, Hash)]
pub struct ClickDefinition {
    pub value: u32,
}

impl View for ClickDefinition {
    type V = ClickDefinition;

    open spec fn view(&self) -> ClickDefinition {
        *self
    }
}

#[derive(Clone, Copy, Debug, PartialEq, Eq, Hash)]
pub struct Tutorial {
    pub value: u32,
}

impl View for Tutorial {
    type V = Tutorial;

    open spec fn view(&self) -> Tutorial {
        *self
    }
}

/// The damage amount, as the literal text of a floating-point number.
#[derive(Clone, Debug, PartialEq, Eq, Hash)]
pub struct BulletDamage {
    pub damage: String,
}

pub ghost struct BulletDamageV {
    pub damage: Seq<char>,
}

impl View for BulletDamage {
    type V = BulletDamageV;

    open spec fn view(&self) -> BulletDamageV {
        BulletDamageV { damage: self.damage@ }
    }
}

/// The damage amount, as the literal text of a floating-point number.
#[derive(Clone, Debug, PartialEq, Eq, Hash)]
pub struct HardBulletDamage {
    pub damage: String,
}

pub ghost struct HardBulletDamageV {
    pub damage: Seq<char>,
}

impl View for HardBulletDamage {
    type V = HardBulletDamageV;

    open spec fn view(&self) -> HardBulletDamageV {
        HardBulletDamageV { damage: self.damage@ }
    }
}

/// The damage amount, as the literal text of a floating-point number.
#[derive(Clone, Debug, PartialEq, Eq, Hash)]
pub struct DangerBulletDamage {
    pub damage: String,
}

pub ghost struct DangerBulletDamageV {
    pub damage: Seq<char>,
}

impl View for DangerBulletDamage {
    type V = DangerBulletDamageV;

    open spec fn view(&self) -> DangerBulletDamageV {
        DangerBulletDamageV { damage: self.damage@ }
    }
}

/// The damage amount, as the literal text of a floating-point number.
#[derive(Clone, Debug, PartialEq, Eq, Hash)]
pub struct BeamDamage {
    pub damage: String,
}

pub ghost struct BeamDamageV {
    pub damage: Seq<char>,
}

impl View for BeamDamage {
    type V = BeamDamageV;

    open spec fn view(&self) -> BeamDamageV {
        BeamDamageV { damage: self.damage@ }
    }
}

#[derive(Clone, Copy, Debug, PartialEq, Eq, Hash)]
pub struct TotalNotes {
    pub value: u32,
}

impl View for TotalNotes {
    type V = TotalNotes;

    open spec fn view(&self) -> TotalNotes {
        *self
    }
}

#[derive(Clone, Copy, Debug, PartialEq, Eq, Hash)]
pub struct TotalTapNotes {
    pub value: u32,
}

impl View for TotalTapNotes {
    type V = TotalTapNotes;

    open spec fn view(&self) -> TotalTapNotes {
        *self
    }
}

#[derive(Clone, Copy, Debug, PartialEq, Eq, Hash)]
pub struct TotalHoldNotes {
    pub value: u32,
}

impl View for TotalHoldNotes {
    type V = TotalHoldNotes;

    open spec fn view(&self) -> TotalHoldNotes {
        *self
    }
}

#[derive(Clone, Copy, Debug, PartialEq, Eq, Hash)]
pub struct TotalSideNotes {
    pub value: u32,
}

impl View for TotalSideNotes {
    type V = TotalSideNotes;

    open spec fn view(&self) -> TotalSideNotes {
        *self
    }
}

#[derive(Clone, Copy, Debug, PartialEq, Eq, Hash)]
pub struct TotalSideHoldNotes {
    pub value: u32,
}

impl View for TotalSideHoldNotes {
    type V = TotalSideHoldNotes;

    open spec fn view(&self) -> TotalSideHoldNotes {
        *self
    }
}

#[derive(Clone, Copy, Debug, PartialEq, Eq, Hash)]
pub struct TotalFlickNotes {
    pub value: u32,
}

impl View for TotalFlickNotes {
    type V = TotalFlickNotes;

    open spec fn view(&self) -> TotalFlickNotes {
        *self
    }
}

#[derive(Clone, Copy, Debug, PartialEq, Eq, Hash)]
pub struct TotalBellNotes {
    pub value: u32,
}

impl View for TotalBellNotes {
    type V = TotalBellNotes;

    open spec fn view(&self) -> TotalBellNotes {
        *self
    }
}

/// The meaning of this command is still unknown. The value is the literal
/// text of a floating-point number.
#[derive(Clone, Debug, PartialEq, Eq, Hash)]
pub struct ProgJudgeBpm {
    pub value: String,
}

pub ghost struct ProgJudgeBpmV {
    pub value: Seq<char>,
}

impl View for ProgJudgeBpm {
    type V = ProgJudgeBpmV;

    open spec fn view(&self) -> ProgJudgeBpmV {
        ProgJudgeBpmV { value: self.value@ }
    }
}

/// Bullet source position.
#[derive(Clone, Copy, Debug, PartialEq, Eq, Hash)]
pub enum BulletShooter {
    EndPosition,
    Enemy,
    Center,
}

impl View for BulletShooter {
    type V = BulletShooter;

    open spec fn view(&self) -> BulletShooter {
        *self
    }
}

impl BulletShooter {
    pub open spec fn st_decode(st: LexSt) -> (Result<BulletShooter, LexErrV>, LexSt) {
        let (t, st2) = st_next_token(st);
        if t == Some("UPS"@) {
            (Ok(BulletShooter::EndPosition), st2)
        } else if t == Some("ENE"@) {
            (Ok(BulletShooter::Enemy), st2)
        } else if t == Some("CEN"@) {
            (Ok(BulletShooter::Center), st2)
        } else {
            (Err(expected_err(st2, "one of UPS, ENE, or CEN"@)), st2)
        }
    }

    pub(crate) fn from_cursor(cursor: &mut Cursor) -> (r: Result<Self, LexError>)
        requires
            old(cursor).wf(),
        ensures
            final(cursor).wf(),
            final(cursor).st().s == old(cursor).st().s,
            final(cursor).st().pos >= old(cursor).st().pos,
            ({
                let (rs, st2) = Self::st_decode(old(cursor).st());
                final(cursor).st() == st2 && rv(r) == rs
            }),
    {
        match cursor.next_token() {
            Some(w) => {
                if str_eq(w, "UPS") {
                    Ok(BulletShooter::EndPosition)
                } else if str_eq(w, "ENE") {
                    Ok(BulletShooter::Enemy)
                } else if str_eq(w, "CEN") {
                    Ok(BulletShooter::Center)
                } else {
                    Err(cursor.err_expected_token("one of UPS, ENE, or CEN"))
                }
            },
            None => Err(cursor.err_expected_token("one of UPS, ENE, or CEN")),
        }
    }
}

/// Bullet target position.
#[derive(Clone, Copy, Debug, PartialEq, Eq, Hash)]
pub enum BulletTarget {
    Player,
    FixedPosition,
}

impl View for BulletTarget {
    type V = BulletTarget;

    open spec fn view(&self) -> BulletTarget {
        *self
    }
}

impl BulletTarget {
    pub open spec fn st_decode(st: LexSt) -> (Result<BulletTarget, LexErrV>, LexSt) {
        let (t, st2) = st_next_token(st);
        if t == Some("PLR"@) {
            (Ok(BulletTarget::Player), st2)
        } else if t == Some("FIX"@) {
            (Ok(BulletTarget::FixedPosition), st2)
        } else {
            (Err(expected_err(st2, "one of PLR or FIX"@)), st2)
        }
    }

    pub(crate) fn from_cursor(cursor: &mut Cursor) -> (r: Result<Self, LexError>)
        requires
            old(cursor).wf(),
        ensures
            final(cursor).wf(),
            final(cursor).st().s == old(cursor).st().s,
            final(cursor).st().pos >= old(cursor).st().pos,
            ({
                let (rs, st2) = Self::st_decode(old(cursor).st());
                final(cursor).st() == st2 && rv(r) == rs
            }),
    {
        match cursor.next_token() {
            Some(w) => {
                if str_eq(w, "PLR") {
                    Ok(BulletTarget::Player)
                } else if str_eq(w, "FIX") {
                    Ok(BulletTarget::FixedPosition)
                } else {
                    Err(cursor.err_expected_token("one of PLR or FIX"))
                }
            },
            None => Err(cursor.err_expected_token("one of PLR or FIX")),
        }
    }
}

#[derive(Clone, Copy, Debug, PartialEq, Eq, Hash)]
pub enum BulletSize {
    Normal,
    Large,
}

impl View for BulletSize {
    type V = BulletSize;

    open spec fn view(&self) -> BulletSize {
        *self
    }
}

impl BulletSize {
    pub open spec fn st_decode(st: LexSt) -> (Result<BulletSize, LexErrV>, LexSt) {
        let (t, st2) = st_next_token(st);
        if t == Some("N"@) {
            (Ok(BulletSize::Normal), st2)
        } else if t == Some("L"@) {
            (Ok(BulletSize::Large), st2)
        } else {
            (Err(expected_err(st2, "one of N or L"@)), st2)
        }
    }

    pub(crate) fn from_cursor(cursor: &mut Cursor) -> (r: Result<Self, LexError>)
        requires
            old(cursor).wf(),
        ensures
            final(cursor).wf(),
            final(cursor).st().s == old(cursor).st().s,
            final(cursor).st().pos >= old(cursor).st().pos,
            ({
                let (rs, st2) = Self::st_decode(old(cursor).st());
                final(cursor).st() == st2 && rv(r) == rs
            }),
    {
        match cursor.next_token() {
            Some(w) => {
                if str_eq(w, "N") {
                    Ok(BulletSize::Normal)
                } else if str_eq(w, "L") {
                    Ok(BulletSize::Large)
                } else {
                    Err(cursor.err_expected_token("one of N or L"))
                }
            },
            None => Err(cursor.err_expected_token("one of N or L")),
        }
    }
}

#[derive(Clone, Copy, Debug, PartialEq, Eq, Hash)]
pub enum BulletType {
    Circle,
    Square,
    Needle,
}

impl View for BulletType {
    type V = BulletType;

    open spec fn view(&self) -> BulletType {
        *self
    }
}

impl BulletType {
    pub open spec fn st_decode(st: LexSt) -> (Result<BulletType, LexErrV>, LexSt) {
        let (t, st2) = st_next_token(st);
        if t == Some("CIR"@) {
            (Ok(BulletType::Circle), st2)
        } else if t == Some("SQR"@) {
            (Ok(BulletType::Square), st2)
        } else if t == Some("NDL"@) {
            (Ok(BulletType::Needle), st2)
        } else {
            (Err(expected_err(st2, "one of CIR, SQR or NDL"@)), st2)
        }
    }

    pub(crate) fn from_cursor(cursor: &mut Cursor) -> (r: Result<Self, LexError>)
        requires
            old(cursor).wf(),
        ensures
            final(cursor).wf(),
            final(cursor).st().s == old(cursor).st().s,
            final(cursor).st().pos >= old(cursor).st().pos,
            ({
                let (rs, st2) = Self::st_decode(old(cursor).st());
                final(cursor).st() == st2 && rv(r) == rs
            }),
    {
        match cursor.next_token() {
            Some(w) => {
                if str_eq(w, "CIR") {
                    Ok(BulletType::Circle)
                } else if str_eq(w, "SQR") {
                    Ok(BulletType::Square)
                } else if str_eq(w, "NDL") {
                    Ok(BulletType::Needle)
                } else {
                    Err(cursor.err_expected_token("one of CIR, SQR or NDL"))
                }
            },
            None => Err(cursor.err_expected_token("one of CIR, SQR or NDL")),
        }
    }
}

/// The bullet palette as lexed: behaviour template for bullets, referenced
/// by id. The `speed` field is the literal text of a floating-point number.
#[derive(Clone, Debug, PartialEq, Eq, Hash)]
pub struct BulletPalette {
    pub id: String,
    pub shooter: BulletShooter,
    /// Add x offset to the x position obtained from `target` to obtain the
    /// bullet's final target position.
    pub target_x_offset: i32,
    pub target: BulletTarget,
    pub speed: String,
    pub size: Option<BulletSize>,
    pub ty: Option<BulletType>,
    /// +/- x position offset is applied on random from zero to this value.
    pub random_position_offset: Option<i32>,
    pub damage_type: Option<BulletDamageType>,
}

pub ghost struct BulletPaletteV {
    pub id: Seq<char>,
    pub shooter: BulletShooter,
    pub target_x_offset: i32,
    pub target: BulletTarget,
    pub speed: Seq<char>,
    pub size: Option<BulletSize>,
    pub ty: Option<BulletType>,
    pub random_position_offset: Option<i32>,
    pub damage_type: Option<BulletDamageType>,
}

impl View for BulletPalette {
    type V = BulletPaletteV;

    open spec fn view(&self) -> BulletPaletteV {
        BulletPaletteV {
            id: self.id@,
            shooter: self.shooter,
            target_x_offset: self.target_x_offset,
            target: self.target,
            speed: self.speed@,
            size: self.size,
            ty: self.ty,
            random_position_offset: self.random_position_offset,
            damage_type: self.damage_type,
        }
    }
}

/// Unused command.
#[derive(Clone, Copy, Debug, PartialEq, Eq, Hash)]
pub struct Btp;

impl View for Btp {
    type V = Btp;

    open spec fn view(&self) -> Btp {
        *self
    }
}

#[derive(Clone, Copy, Debug, PartialEq, Eq, Hash, Default)]
pub struct CommandTime {
    pub measure: u32,
    pub offset: u32,
}

impl View for CommandTime {
    type V = CommandTime;

    open spec fn view(&self) -> CommandTime {
        *self
    }
}

#[derive(Clone, Copy, Debug, PartialEq, Eq, Hash)]
pub struct BpmChange {
    pub time: CommandTime,
    pub bpm: u32,
}

impl View for BpmChange {
    type V = BpmChange;

    open spec fn view(&self) -> BpmChange {
        *self
    }
}

#[derive(Clone, Copy, Debug, PartialEq, Eq, Hash)]
pub struct MeterChange {
    pub time: CommandTime,
    pub num_beats: u32,
    pub note_value: u32,
}

impl View for MeterChange {
    type V = MeterChange;

    open spec fn view(&self) -> MeterChange {
        *self
    }
}

#[derive(Clone, Copy, Debug, PartialEq, Eq, Hash)]
pub struct ClickSound {
    pub time: CommandTime,
}

impl View for ClickSound {
    type V = ClickSound;

    open spec fn view(&self) -> ClickSound {
        *self
    }
}

/// A timed scroll-speed change. The multiplier is the literal text of a
/// floating-point number.
#[derive(Clone, Debug, PartialEq, Eq, Hash)]
pub struct Soflan {
    pub time: CommandTime,
    /// Duration in terms of a resolution within the measure, similar to
    /// `offset`.
    pub duration: u32,
    pub current_speed_multiplier: String,
}

pub ghost struct SoflanV {
    pub time: CommandTime,
    pub duration: u32,
    pub current_speed_multiplier: Seq<char>,
}

impl View for Soflan {
    type V = SoflanV;

    open spec fn view(&self) -> SoflanV {
        SoflanV {
            time: self.time,
            duration: self.duration,
            current_speed_multiplier: self.current_speed_multiplier@,
        }
    }
}

#[derive(Clone, Copy, Debug, PartialEq, Eq, Hash)]
pub enum EnemyWave {
    Wave1,
    Wave2,
    Boss,
}

impl View for EnemyWave {
    type V = EnemyWave;

    open spec fn view(&self) -> EnemyWave {
        *self
    }
}

impl EnemyWave {
    pub open spec fn st_decode(st: LexSt) -> (Result<EnemyWave, LexErrV>, LexSt) {
        let (t, st2) = st_next_token(st);
        if t == Some("WAVE1"@) {
            (Ok(EnemyWave::Wave1), st2)
        } else if t == Some("WAVE2"@) {
            (Ok(EnemyWave::Wave2), st2)
        } else if t == Some("BOSS"@) {
            (Ok(EnemyWave::Boss), st2)
        } else {
            (Err(expected_err(st2, "one of WAVE1, WAVE2 or BOSS"@)), st2)
        }
    }

    pub(crate) fn from_cursor(cursor: &mut Cursor) -> (r: Result<Self, LexError>)
        requires
            old(cursor).wf(),
        ensures
            final(cursor).wf(),
            final(cursor).st().s == old(cursor).st().s,
            final(cursor).st().pos >= old(cursor).st().pos,
            ({
                let (rs, st2) = Self::st_decode(old(cursor).st());
                final(cursor).st() == st2 && rv(r) == rs
            }),
    {
        match cursor.next_token() {
            Some(w) => {
                if str_eq(w, "WAVE1") {
                    Ok(EnemyWave::Wave1)
                } else if str_eq(w, "WAVE2") {
                    Ok(EnemyWave::Wave2)
                } else if str_eq(w, "BOSS") {
                    Ok(EnemyWave::Boss)
                } else {
                    Err(cursor.err_expected_token("one of WAVE1, WAVE2 or BOSS"))
                }
            },
            None => Err(cursor.err_expected_token("one of WAVE1, WAVE2 or BOSS")),
        }
    }
}

#[derive(Clone, Copy, Debug, PartialEq, Eq, Hash)]
pub struct EnemySet {
    pub time: CommandTime,
    pub wave: EnemyWave,
}

impl View for EnemySet {
    type V = EnemySet;

    open spec fn view(&self) -> EnemySet {
        *self
    }
}

#[derive(Clone, Copy, Debug, PartialEq, Eq, Hash)]
pub struct WallPoint {
    pub group_id: u32,
    pub time: CommandTime,
    pub x_position: i32,
}

impl View for WallPoint {
    type V = WallPoint;

    open spec fn view(&self) -> WallPoint {
        *self
    }
}

#[derive(Clone, Copy, Debug, PartialEq, Eq, Hash)]
pub struct LanePoint {
    pub group_id: u32,
    pub time: CommandTime,
    pub x_position: i32,
}

impl View for LanePoint {
    type V = LanePoint;

    open spec fn view(&self) -> LanePoint {
        *self
    }
}

impl LanePoint {
    /// An enemy-lane point carries the same data as a lane point.
    pub fn from_enemy_lane_point(point: EnemyLanePoint) -> (r: Self)
        ensures
            r == (LanePoint {
                group_id: point.group_id,
                time: point.time,
                x_position: point.x_position,
            }),
    {
        Self { group_id: point.group_id, time: point.time, x_position: point.x_position }
    }
}

#[derive(Clone, Copy, Debug, PartialEq, Eq, Hash)]
pub struct ColorfulLanePoint {
    pub group_id: u32,
    pub time: CommandTime,
    pub x_position: i32,
    pub color: u32,
    pub brightness: u32,
}

impl View for ColorfulLanePoint {
    type V = ColorfulLanePoint;

    open spec fn view(&self) -> ColorfulLanePoint {
        *self
    }
}

#[derive(Clone, Copy, Debug, PartialEq, Eq, Hash)]
pub struct EnemyLanePoint {
    pub group_id: u32,
    pub time: CommandTime,
    pub x_position: i32,
}

impl View for EnemyLanePoint {
    type V = EnemyLanePoint;

    open spec fn view(&self) -> EnemyLanePoint {
        *self
    }
}

/// Used for lane disappearance and lane block.
#[derive(Clone, Copy, Debug, PartialEq, Eq, Hash)]
pub struct LaneEvent {
    pub group_id: u32,
    pub start_time: CommandTime,
    pub start_x_position: i32,
    pub start_x_offset: i32,
    pub end_time: CommandTime,
    pub end_x_position: i32,
    pub end_x_offset: i32,
}

impl View for LaneEvent {
    type V = LaneEvent;

    open spec fn view(&self) -> LaneEvent {
        *self
    }
}

#[derive(Clone, Copy, Debug, PartialEq, Eq, Hash)]
pub enum BulletDamageType {
    Normal,
    Hard,
    Danger,
}

impl View for BulletDamageType {
    type V = BulletDamageType;

    open spec fn view(&self) -> BulletDamageType {
        *self
    }
}

/// The damage-type tag a word denotes, if any. This drives the lookahead
/// that separates old-format from new-format `BPL` commands.
pub open spec fn damage_type_of(w: Seq<char>) -> Option<BulletDamageType> {
    if w == "NML"@ {
        Some(BulletDamageType::Normal)
    } else if w == "STR"@ {
        Some(BulletDamageType::Hard)
    } else if w == "DNG"@ {
        Some(BulletDamageType::Danger)
    } else {
        None
    }
}

impl BulletDamageType {
    pub(crate) fn from_str(s: &str) -> (r: Result<Self, LexError>)
        ensures
            rv(r) == match damage_type_of(s@) {
                Some(d) => Ok::<BulletDamageType, LexErrV>(d),
                None => Err(LexErrV::ExpectedToken {
                    line: 0,
                    col: 0,
                    message: "internal dummy error"@,
                }),
            },
    {
        if str_eq(s, "NML") {
            Ok(BulletDamageType::Normal)
        } else if str_eq(s, "STR") {
            Ok(BulletDamageType::Hard)
        } else if str_eq(s, "DNG") {
            Ok(BulletDamageType::Danger)
        } else {
            Err(LexError::ExpectedToken { line: 0, col: 0, message: "internal dummy error" })
        }
    }

    pub open spec fn st_decode(st: LexSt) -> (Result<BulletDamageType, LexErrV>, LexSt) {
        let (t, st2) = st_next_token(st);
        match t {
            Some(w) => match damage_type_of(w) {
                Some(d) => (Ok(d), st2),
                None => (Err(expected_err(st2, "one of NML, STR, or DNG"@)), st2),
            },
            None => (Err(expected_err(st2, "one of NML, STR, or DNG"@)), st2),
        }
    }

    pub(crate) fn from_cursor(cursor: &mut Cursor) -> (r: Result<Self, LexError>)
        requires
            old(cursor).wf(),
        ensures
            final(cursor).wf(),
            final(cursor).st().s == old(cursor).st().s,
            final(cursor).st().pos >= old(cursor).st().pos,
            ({
                let (rs, st2) = Self::st_decode(old(cursor).st());
                final(cursor).st() == st2 && rv(r) == rs
            }),
    {
        match cursor.next_token() {
            Some(w) => {
                if str_eq(w, "NML") {
                    Ok(BulletDamageType::Normal)
                } else if str_eq(w, "STR") {
                    Ok(BulletDamageType::Hard)
                } else if str_eq(w, "DNG") {
                    Ok(BulletDamageType::Danger)
                } else {
                    Err(cursor.err_expected_token("one of NML, STR, or DNG"))
                }
            },
            None => Err(cursor.err_expected_token("one of NML, STR, or DNG")),
        }
    }
}

/// A placed bullet, as lexed.
#[derive(Clone, Debug, PartialEq, Eq, Hash)]
pub struct Bullet {
    pub pallete_id: String,
    pub time: CommandTime,
    pub x_position: i32,
    pub damage_type: BulletDamageType,
}

pub ghost struct BulletV {
    pub pallete_id: Seq<char>,
    pub time: CommandTime,
    pub x_position: i32,
    pub damage_type: BulletDamageType,
}

impl View for Bullet {
    type V = BulletV;

    open spec fn view(&self) -> BulletV {
        BulletV {
            pallete_id: self.pallete_id@,
            time: self.time,
            x_position: self.x_position,
            damage_type: self.damage_type,
        }
    }
}

#[derive(Clone, Copy, Debug, PartialEq, Eq, Hash)]
pub struct BeamPoint {
    pub record_id: u32,
    pub time: CommandTime,
    pub x_position: i32,
    pub width: u32,
}

impl View for BeamPoint {
    type V = BeamPoint;

    open spec fn view(&self) -> BeamPoint {
        *self
    }
}

#[derive(Clone, Copy, Debug, PartialEq, Eq, Hash)]
pub struct ObliqueBeamPoint {
    pub record_id: u32,
    pub time: CommandTime,
    pub x_position: i32,
    pub width: u32,
    pub shoot_position_x_offset: i32,
}

impl View for ObliqueBeamPoint {
    type V = ObliqueBeamPoint;

    open spec fn view(&self) -> ObliqueBeamPoint {
        *self
    }
}

/// A bell note, as lexed. The optional palette id is the trimmed rest of the
/// command line.
#[derive(Clone, Debug, PartialEq, Eq, Hash)]
pub struct Bell {
    pub time: CommandTime,
    pub x_position: i32,
    pub bullet_palette_id: Option<String>,
}

pub ghost struct BellV {
    pub time: CommandTime,
    pub x_position: i32,
    pub bullet_palette_id: Option<Seq<char>>,
}

impl View for Bell {
    type V = BellV;

    open spec fn view(&self) -> BellV {
        BellV {
            time: self.time,
            x_position: self.x_position,
            bullet_palette_id: match self.bullet_palette_id {
                Some(ref s) => Some(s@),
                None => None,
            },
        }
    }
}

#[derive(Clone, Copy, Debug, PartialEq, Eq, Hash, Structural)]
pub enum FlickDirection {
    Left,
    Right,
}

impl View for FlickDirection {
    type V = FlickDirection;

    open spec fn view(&self) -> FlickDirection {
        *self
    }
}

impl FlickDirection {
    pub open spec fn st_decode(st: LexSt) -> (Result<FlickDirection, LexErrV>, LexSt) {
        let (t, st2) = st_next_token(st);
        if t == Some("L"@) {
            (Ok(FlickDirection::Left), st2)
        } else if t == Some("R"@) {
            (Ok(FlickDirection::Right), st2)
        } else {
            (Err(expected_err(st2, "one of L or R"@)), st2)
        }
    }

    pub(crate) fn from_cursor(cursor: &mut Cursor) -> (r: Result<Self, LexError>)
        requires
            old(cursor).wf(),
        ensures
            final(cursor).wf(),
            final(cursor).st().s == old(cursor).st().s,
            final(cursor).st().pos >= old(cursor).st().pos,
            ({
                let (rs, st2) = Self::st_decode(old(cursor).st());
                final(cursor).st() == st2 && rv(r) == rs
            }),
    {
        match cursor.next_token() {
            Some(w) => {
                if str_eq(w, "L") {
                    Ok(FlickDirection::Left)
                } else if str_eq(w, "R") {
                    Ok(FlickDirection::Right)
                } else {
                    Err(cursor.err_expected_token("one of L or R"))
                }
            },
            None => Err(cursor.err_expected_token("one of L or R")),
        }
    }
}

#[derive(Clone, Copy, Debug, PartialEq, Eq, Hash)]
pub struct Flick {
    pub time: CommandTime,
    pub x_position: i32,
    pub direction: FlickDirection,
}

impl View for Flick {
    type V = Flick;

    open spec fn view(&self) -> Flick {
        *self
    }
}

#[derive(Clone, Copy, Debug, PartialEq, Eq, Hash)]
pub struct Tap {
    pub lane_group_id: u32,
    pub time: CommandTime,
    pub x_position: i32,
    pub x_offset: i32,
}

impl View for Tap {
    type V = Tap;

    open spec fn view(&self) -> Tap {
        *self
    }
}

#[derive(Clone, Copy, Debug, PartialEq, Eq, Hash)]
pub struct Hold {
    pub lane_group_id: u32,
    pub start_time: CommandTime,
    pub start_x_position: i32,
    pub start_x_offset: i32,
    pub end_time: CommandTime,
    pub end_x_position: i32,
    pub end_x_offset: i32,
}

impl View for Hold {
    type V = Hold;

    open spec fn view(&self) -> Hold {
        *self
    }
}

} // verus!
