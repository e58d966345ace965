//! Grammar-level raw parsing: decodes standalone commands into accumulator
//! fields and stitches multi-line sections (walls, lanes, beams) from
//! contiguous Start/Next*/End command runs with agreeing group ids.

use crate::lex::command::{
    Bell, BellV, BeamPoint, BpmChange, Bullet, BulletPalette, BulletPaletteV, BulletV, ClickSound,
    ColorfulLanePoint, EnemyLanePoint, LaneEvent, LanePoint, MeterChange, MeterDefinition,
    ObliqueBeamPoint, Soflan, SoflanV, Flick, Tap, Hold, WallPoint,
};
use crate::lex::token::{Token, TokenStream, TokenV};
use crate::parse::{
    Commands, DamageValuesV, EnemyWaveAssignment, Header, HeaderV, ParseErrV, ParseError, Totals,
};
use vstd::prelude::*;

verus! {

/// An enemy-lane point carries the same data as a lane point.
pub open spec fn lane_point_of_enemy(p: EnemyLanePoint) -> LanePoint {
    LanePoint { group_id: p.group_id, time: p.time, x_position: p.x_position }
}

/// A left or right wall section: contiguous points sharing one group id.
#[derive(Clone, Debug, PartialEq, Eq, Hash)]
pub struct WallSection {
    pub group_id: u32,
    pub points: Vec<WallPoint>,
}

pub ghost struct WallSectionV {
    pub group_id: u32,
    pub points: Seq<WallPoint>,
}

impl View for WallSection {
    type V = WallSectionV;

    open spec fn view(&self) -> WallSectionV {
        WallSectionV { group_id: self.group_id, points: self.points@ }
    }
}

/// A lane section: contiguous points sharing one group id.
#[derive(Clone, Debug, PartialEq, Eq, Hash)]
pub struct LaneSection {
    pub group_id: u32,
    pub points: Vec<LanePoint>,
}

pub ghost struct LaneSectionV {
    pub group_id: u32,
    pub points: Seq<LanePoint>,
}

impl View for LaneSection {
    type V = LaneSectionV;

    open spec fn view(&self) -> LaneSectionV {
        LaneSectionV { group_id: self.group_id, points: self.points@ }
    }
}

/// A colorful lane section.
#[derive(Clone, Debug, PartialEq, Eq, Hash)]
pub struct ColorfulLaneSection {
    pub group_id: u32,
    pub points: Vec<ColorfulLanePoint>,
}

pub ghost struct ColorfulLaneSectionV {
    pub group_id: u32,
    pub points: Seq<ColorfulLanePoint>,
}

impl View for ColorfulLaneSection {
    type V = ColorfulLaneSectionV;

    open spec fn view(&self) -> ColorfulLaneSectionV {
        ColorfulLaneSectionV { group_id: self.group_id, points: self.points@ }
    }
}

/// A beam section.
#[derive(Clone, Debug, PartialEq, Eq, Hash)]
pub struct BeamSection {
    pub record_id: u32,
    pub points: Vec<BeamPoint>,
}

pub ghost struct BeamSectionV {
    pub record_id: u32,
    pub points: Seq<BeamPoint>,
}

impl View for BeamSection {
    type V = BeamSectionV;

    open spec fn view(&self) -> BeamSectionV {
        BeamSectionV { record_id: self.record_id, points: self.points@ }
    }
}

/// An oblique beam section.
#[derive(Clone, Debug, PartialEq, Eq, Hash)]
pub struct ObliqueBeamSection {
    pub record_id: u32,
    pub points: Vec<ObliqueBeamPoint>,
}

pub ghost struct ObliqueBeamSectionV {
    pub record_id: u32,
    pub points: Seq<ObliqueBeamPoint>,
}

impl View for ObliqueBeamSection {
    type V = ObliqueBeamSectionV;

    open spec fn view(&self) -> ObliqueBeamSectionV {
        ObliqueBeamSectionV { record_id: self.record_id, points: self.points@ }
    }
}

fn next_token_or(commands: &mut Commands, message: &str) -> (r: Result<Token, ParseError>)
    ensures
        old(commands)@.len() == 0 ==> final(commands)@ == old(commands)@ && match r {
            Ok(_) => false,
            Err(e) => e@ == ParseErrV::SemanticErrorExpectedCommand(message@),
        },
        old(commands)@.len() > 0 ==> final(commands)@ == old(commands)@.skip(1) && match r {
            Ok(t) => t@ == old(commands)@[0],
            Err(_) => false,
        },
{
    match commands.next_command() {
        Some(t) => Ok(t),
        None => Err(ParseError::SemanticErrorExpectedCommand(String::from_str(message))),
    }
}

fn verify_group_id(commands: &Commands, reference_id: u32, new_id: u32) -> (r: Result<
    (),
    ParseError,
>)
    ensures
        match r {
            Ok(_) => reference_id == new_id,
            Err(e) => reference_id != new_id && e@ == ParseErrV::SemanticError(
                "different group ids for consequetive section"@,
            ),
        },
{
    if reference_id != new_id {
        Err(commands.err_semantic("different group ids for consequetive section"))
    } else {
        Ok(())
    }
}


/// Consuming the rest of a left wall section: `Next` points until `End`, each agreeing
/// on the section's id. The result carries the outcome and the tokens left
/// in the stream, so the queue position is pinned on the error paths too
/// (the offending token is consumed before the error is raised).
pub open spec fn wall_left_section_steps(gid: u32, acc: Seq<WallPoint>, toks: Seq<TokenV>) -> (
    Result<WallSectionV, ParseErrV>,
    Seq<TokenV>,
)
    decreases toks.len(),
{
    if toks.len() == 0 {
        (Err(ParseErrV::SemanticErrorExpectedCommand("more commands for left wall section"@)), toks)
    } else {
        match toks[0] {
            TokenV::WallLeftNext(p) => if p.group_id != gid {
                (
                    Err(ParseErrV::SemanticError("different group ids for consequetive section"@)),
                    toks.skip(1),
                )
            } else {
                wall_left_section_steps(gid, acc.push(p), toks.skip(1))
            },
            TokenV::WallLeftEnd(p) => if p.group_id != gid {
                (
                    Err(ParseErrV::SemanticError("different group ids for consequetive section"@)),
                    toks.skip(1),
                )
            } else {
                (Ok(WallSectionV { group_id: gid, points: acc.push(p) }), toks.skip(1))
            },
            _ => (Err(ParseErrV::SemanticError("unexpected command on left wall section"@)), toks.skip(1)),
        }
    }
}

/// The section grammar leaves no more tokens than it was given.
proof fn lemma_wall_left_section_len(gid: u32, acc: Seq<WallPoint>, toks: Seq<TokenV>)
    ensures
        wall_left_section_steps(gid, acc, toks).1.len() <= toks.len(),
    decreases toks.len(),
{
    if toks.len() > 0 {
        match toks[0] {
            TokenV::WallLeftNext(p) => {
                if p.group_id == gid {
                    lemma_wall_left_section_len(gid, acc.push(p), toks.skip(1));
                }
            },
            _ => {},
        }
    }
}

/// Consuming the rest of a right wall section: `Next` points until `End`, each agreeing
/// on the section's id. The result carries the outcome and the tokens left
/// in the stream, so the queue position is pinned on the error paths too
/// (the offending token is consumed before the error is raised).
pub open spec fn wall_right_section_steps(gid: u32, acc: Seq<WallPoint>, toks: Seq<TokenV>) -> (
    Result<WallSectionV, ParseErrV>,
    Seq<TokenV>,
)
    decreases toks.len(),
{
    if toks.len() == 0 {
        (Err(ParseErrV::SemanticErrorExpectedCommand("more commands for right wall section"@)), toks)
    } else {
        match toks[0] {
            TokenV::WallRightNext(p) => if p.group_id != gid {
                (
                    Err(ParseErrV::SemanticError("different group ids for consequetive section"@)),
                    toks.skip(1),
                )
            } else {
                wall_right_section_steps(gid, acc.push(p), toks.skip(1))
            },
            TokenV::WallRightEnd(p) => if p.group_id != gid {
                (
                    Err(ParseErrV::SemanticError("different group ids for consequetive section"@)),
                    toks.skip(1),
                )
            } else {
                (Ok(WallSectionV { group_id: gid, points: acc.push(p) }), toks.skip(1))
            },
            _ => (Err(ParseErrV::SemanticError("unexpected command on right wall section"@)), toks.skip(1)),
        }
    }
}

/// The section grammar leaves no more tokens than it was given.
proof fn lemma_wall_right_section_len(gid: u32, acc: Seq<WallPoint>, toks: Seq<TokenV>)
    ensures
        wall_right_section_steps(gid, acc, toks).1.len() <= toks.len(),
    decreases toks.len(),
{
    if toks.len() > 0 {
        match toks[0] {
            TokenV::WallRightNext(p) => {
                if p.group_id == gid {
                    lemma_wall_right_section_len(gid, acc.push(p), toks.skip(1));
                }
            },
            _ => {},
        }
    }
}

/// Consuming the rest of a left lane section: `Next` points until `End`, each agreeing
/// on the section's id. The result carries the outcome and the tokens left
/// in the stream, so the queue position is pinned on the error paths too
/// (the offending token is consumed before the error is raised).
pub open spec fn lane_left_section_steps(gid: u32, acc: Seq<LanePoint>, toks: Seq<TokenV>) -> (
    Result<LaneSectionV, ParseErrV>,
    Seq<TokenV>,
)
    decreases toks.len(),
{
    if toks.len() == 0 {
        (Err(ParseErrV::SemanticErrorExpectedCommand("more commands for left lane section"@)), toks)
    } else {
        match toks[0] {
            TokenV::LaneLeftNext(p) => if p.group_id != gid {
                (
                    Err(ParseErrV::SemanticError("different group ids for consequetive section"@)),
                    toks.skip(1),
                )
            } else {
                lane_left_section_steps(gid, acc.push(p), toks.skip(1))
            },
            TokenV::LaneLeftEnd(p) => if p.group_id != gid {
                (
                    Err(ParseErrV::SemanticError("different group ids for consequetive section"@)),
                    toks.skip(1),
                )
            } else {
                (Ok(LaneSectionV { group_id: gid, points: acc.push(p) }), toks.skip(1))
            },
            _ => (Err(ParseErrV::SemanticError("unexpected command on left lane section"@)), toks.skip(1)),
        }
    }
}

/// The section grammar leaves no more tokens than it was given.
proof fn lemma_lane_left_section_len(gid: u32, acc: Seq<LanePoint>, toks: Seq<TokenV>)
    ensures
        lane_left_section_steps(gid, acc, toks).1.len() <= toks.len(),
    decreases toks.len(),
{
    if toks.len() > 0 {
        match toks[0] {
            TokenV::LaneLeftNext(p) => {
                if p.group_id == gid {
                    lemma_lane_left_section_len(gid, acc.push(p), toks.skip(1));
                }
            },
            _ => {},
        }
    }
}

/// Consuming the rest of a center lane section: `Next` points until `End`, each agreeing
/// on the section's id. The result carries the outcome and the tokens left
/// in the stream, so the queue position is pinned on the error paths too
/// (the offending token is consumed before the error is raised).
pub open spec fn lane_center_section_steps(gid: u32, acc: Seq<LanePoint>, toks: Seq<TokenV>) -> (
    Result<LaneSectionV, ParseErrV>,
    Seq<TokenV>,
)
    decreases toks.len(),
{
    if toks.len() == 0 {
        (Err(ParseErrV::SemanticErrorExpectedCommand("more commands for center lane section"@)), toks)
    } else {
        match toks[0] {
            TokenV::LaneCenterNext(p) => if p.group_id != gid {
                (
                    Err(ParseErrV::SemanticError("different group ids for consequetive section"@)),
                    toks.skip(1),
                )
            } else {
                lane_center_section_steps(gid, acc.push(p), toks.skip(1))
            },
            TokenV::LaneCenterEnd(p) => if p.group_id != gid {
                (
                    Err(ParseErrV::SemanticError("different group ids for consequetive section"@)),
                    toks.skip(1),
                )
            } else {
                (Ok(LaneSectionV { group_id: gid, points: acc.push(p) }), toks.skip(1))
            },
            _ => (Err(ParseErrV::SemanticError("unexpected command on center lane section"@)), toks.skip(1)),
        }
    }
}

/// The section grammar leaves no more tokens than it was given.
proof fn lemma_lane_center_section_len(gid: u32, acc: Seq<LanePoint>, toks: Seq<TokenV>)
    ensures
        lane_center_section_steps(gid, acc, toks).1.len() <= toks.len(),
    decreases toks.len(),
{
    if toks.len() > 0 {
        match toks[0] {
            TokenV::LaneCenterNext(p) => {
                if p.group_id == gid {
                    lemma_lane_center_section_len(gid, acc.push(p), toks.skip(1));
                }
            },
            _ => {},
        }
    }
}

/// Consuming the rest of a right lane section: `Next` points until `End`, each agreeing
/// on the section's id. The result carries the outcome and the tokens left
/// in the stream, so the queue position is pinned on the error paths too
/// (the offending token is consumed before the error is raised).
pub open spec fn lane_right_section_steps(gid: u32, acc: Seq<LanePoint>, toks: Seq<TokenV>) -> (
    Result<LaneSectionV, ParseErrV>,
    Seq<TokenV>,
)
    decreases toks.len(),
{
    if toks.len() == 0 {
        (Err(ParseErrV::SemanticErrorExpectedCommand("more commands for right lane section"@)), toks)
    } else {
        match toks[0] {
            TokenV::LaneRightNext(p) => if p.group_id != gid {
                (
                    Err(ParseErrV::SemanticError("different group ids for consequetive section"@)),
                    toks.skip(1),
                )
            } else {
                lane_right_section_steps(gid, acc.push(p), toks.skip(1))
            },
            TokenV::LaneRightEnd(p) => if p.group_id != gid {
                (
                    Err(ParseErrV::SemanticError("different group ids for consequetive section"@)),
                    toks.skip(1),
                )
            } else {
                (Ok(LaneSectionV { group_id: gid, points: acc.push(p) }), toks.skip(1))
            },
            _ => (Err(ParseErrV::SemanticError("unexpected command on right lane section"@)), toks.skip(1)),
        }
    }
}

/// The section grammar leaves no more tokens than it was given.
proof fn lemma_lane_right_section_len(gid: u32, acc: Seq<LanePoint>, toks: Seq<TokenV>)
    ensures
        lane_right_section_steps(gid, acc, toks).1.len() <= toks.len(),
    decreases toks.len(),
{
    if toks.len() > 0 {
        match toks[0] {
            TokenV::LaneRightNext(p) => {
                if p.group_id == gid {
                    lemma_lane_right_section_len(gid, acc.push(p), toks.skip(1));
                }
            },
            _ => {},
        }
    }
}

/// Consuming the rest of a enemy lane section: `Next` points until `End`, each agreeing
/// on the section's id. The result carries the outcome and the tokens left
/// in the stream, so the queue position is pinned on the error paths too
/// (the offending token is consumed before the error is raised).
pub open spec fn enemy_lane_section_steps(gid: u32, acc: Seq<LanePoint>, toks: Seq<TokenV>) -> (
    Result<LaneSectionV, ParseErrV>,
    Seq<TokenV>,
)
    decreases toks.len(),
{
    if toks.len() == 0 {
        (Err(ParseErrV::SemanticErrorExpectedCommand("more commands for enemy lane section"@)), toks)
    } else {
        match toks[0] {
            TokenV::EnemyLaneNext(p) => if p.group_id != gid {
                (
                    Err(ParseErrV::SemanticError("different group ids for consequetive section"@)),
                    toks.skip(1),
                )
            } else {
                enemy_lane_section_steps(gid, acc.push(lane_point_of_enemy(p)), toks.skip(1))
            },
            TokenV::EnemyLaneEnd(p) => if p.group_id != gid {
                (
                    Err(ParseErrV::SemanticError("different group ids for consequetive section"@)),
                    toks.skip(1),
                )
            } else {
                (Ok(LaneSectionV { group_id: gid, points: acc.push(lane_point_of_enemy(p)) }), toks.skip(1))
            },
            _ => (Err(ParseErrV::SemanticError("unexpected command on enemy lane section"@)), toks.skip(1)),
        }
    }
}

/// The section grammar leaves no more tokens than it was given.
proof fn lemma_enemy_lane_section_len(gid: u32, acc: Seq<LanePoint>, toks: Seq<TokenV>)
    ensures
        enemy_lane_section_steps(gid, acc, toks).1.len() <= toks.len(),
    decreases toks.len(),
{
    if toks.len() > 0 {
        match toks[0] {
            TokenV::EnemyLaneNext(p) => {
                if p.group_id == gid {
                    lemma_enemy_lane_section_len(gid, acc.push(lane_point_of_enemy(p)), toks.skip(1));
                }
            },
            _ => {},
        }
    }
}

/// Consuming the rest of a colorful lane section: `Next` points until `End`, each agreeing
/// on the section's id. The result carries the outcome and the tokens left
/// in the stream, so the queue position is pinned on the error paths too
/// (the offending token is consumed before the error is raised).
pub open spec fn colorful_lane_section_steps(gid: u32, acc: Seq<ColorfulLanePoint>, toks: Seq<TokenV>) -> (
    Result<ColorfulLaneSectionV, ParseErrV>,
    Seq<TokenV>,
)
    decreases toks.len(),
{
    if toks.len() == 0 {
        (Err(ParseErrV::SemanticErrorExpectedCommand("more commands for colorful lane section"@)), toks)
    } else {
        match toks[0] {
            TokenV::ColorfulLaneNext(p) => if p.group_id != gid {
                (
                    Err(ParseErrV::SemanticError("different group ids for consequetive section"@)),
                    toks.skip(1),
                )
            } else {
                colorful_lane_section_steps(gid, acc.push(p), toks.skip(1))
            },
            TokenV::ColorfulLaneEnd(p) => if p.group_id != gid {
                (
                    Err(ParseErrV::SemanticError("different group ids for consequetive section"@)),
                    toks.skip(1),
                )
            } else {
                (Ok(ColorfulLaneSectionV { group_id: gid, points: acc.push(p) }), toks.skip(1))
            },
            _ => (Err(ParseErrV::SemanticError("unexpected command on colorful lane section"@)), toks.skip(1)),
        }
    }
}

/// The section grammar leaves no more tokens than it was given.
proof fn lemma_colorful_lane_section_len(gid: u32, acc: Seq<ColorfulLanePoint>, toks: Seq<TokenV>)
    ensures
        colorful_lane_section_steps(gid, acc, toks).1.len() <= toks.len(),
    decreases toks.len(),
{
    if toks.len() > 0 {
        match toks[0] {
            TokenV::ColorfulLaneNext(p) => {
                if p.group_id == gid {
                    lemma_colorful_lane_section_len(gid, acc.push(p), toks.skip(1));
                }
            },
            _ => {},
        }
    }
}

/// Consuming the rest of a beam section: `Next` points until `End`, each agreeing
/// on the section's id. The result carries the outcome and the tokens left
/// in the stream, so the queue position is pinned on the error paths too
/// (the offending token is consumed before the error is raised).
pub open spec fn beam_section_steps(gid: u32, acc: Seq<BeamPoint>, toks: Seq<TokenV>) -> (
    Result<BeamSectionV, ParseErrV>,
    Seq<TokenV>,
)
    decreases toks.len(),
{
    if toks.len() == 0 {
        (Err(ParseErrV::SemanticErrorExpectedCommand("more commands for enemy lane section"@)), toks)
    } else {
        match toks[0] {
            TokenV::BeamNext(p) => if p.record_id != gid {
                (
                    Err(ParseErrV::SemanticError("different group ids for consequetive section"@)),
                    toks.skip(1),
                )
            } else {
                beam_section_steps(gid, acc.push(p), toks.skip(1))
            },
            TokenV::BeamEnd(p) => if p.record_id != gid {
                (
                    Err(ParseErrV::SemanticError("different group ids for consequetive section"@)),
                    toks.skip(1),
                )
            } else {
                (Ok(BeamSectionV { record_id: gid, points: acc.push(p) }), toks.skip(1))
            },
            _ => (Err(ParseErrV::SemanticError("unexpected command on enemy lane section"@)), toks.skip(1)),
        }
    }
}

/// The section grammar leaves no more tokens than it was given.
proof fn lemma_beam_section_len(gid: u32, acc: Seq<BeamPoint>, toks: Seq<TokenV>)
    ensures
        beam_section_steps(gid, acc, toks).1.len() <= toks.len(),
    decreases toks.len(),
{
    if toks.len() > 0 {
        match toks[0] {
            TokenV::BeamNext(p) => {
                if p.record_id == gid {
                    lemma_beam_section_len(gid, acc.push(p), toks.skip(1));
                }
            },
            _ => {},
        }
    }
}

/// Consuming the rest of a oblique beam section: `Next` points until `End`, each agreeing
/// on the section's id. The result carries the outcome and the tokens left
/// in the stream, so the queue position is pinned on the error paths too
/// (the offending token is consumed before the error is raised).
pub open spec fn oblique_beam_section_steps(gid: u32, acc: Seq<ObliqueBeamPoint>, toks: Seq<TokenV>) -> (
    Result<ObliqueBeamSectionV, ParseErrV>,
    Seq<TokenV>,
)
    decreases toks.len(),
{
    if toks.len() == 0 {
        (Err(ParseErrV::SemanticErrorExpectedCommand("more commands for enemy lane section"@)), toks)
    } else {
        match toks[0] {
            TokenV::ObliqueBeamNext(p) => if p.record_id != gid {
                (
                    Err(ParseErrV::SemanticError("different group ids for consequetive section"@)),
                    toks.skip(1),
                )
            } else {
                oblique_beam_section_steps(gid, acc.push(p), toks.skip(1))
            },
            TokenV::ObliqueBeamEnd(p) => if p.record_id != gid {
                (
                    Err(ParseErrV::SemanticError("different group ids for consequetive section"@)),
                    toks.skip(1),
                )
            } else {
                (Ok(ObliqueBeamSectionV { record_id: gid, points: acc.push(p) }), toks.skip(1))
            },
            _ => (Err(ParseErrV::SemanticError("unexpected command on enemy lane section"@)), toks.skip(1)),
        }
    }
}

/// The section grammar leaves no more tokens than it was given.
proof fn lemma_oblique_beam_section_len(gid: u32, acc: Seq<ObliqueBeamPoint>, toks: Seq<TokenV>)
    ensures
        oblique_beam_section_steps(gid, acc, toks).1.len() <= toks.len(),
    decreases toks.len(),
{
    if toks.len() > 0 {
        match toks[0] {
            TokenV::ObliqueBeamNext(p) => {
                if p.record_id == gid {
                    lemma_oblique_beam_section_len(gid, acc.push(p), toks.skip(1));
                }
            },
            _ => {},
        }
    }
}

impl WallSection {
    pub(crate) fn wall_left_from_commands(commands: &mut Commands, first_point: WallPoint) -> (r: Result<
        Self,
        ParseError,
    >)
        ensures
            ({
                let (rs, rest) = wall_left_section_steps(first_point.group_id, seq![first_point], old(commands)@);
                final(commands)@ == rest && match (r, rs) {
                    (Ok(sec), Ok(sv)) => sec@ == sv,
                    (Err(e), Err(ev)) => e@ == ev,
                    _ => false,
                }
            }),
    {
        let group_id = first_point.group_id;
        let mut points = Vec::new();
        points.push(first_point);
        loop
            invariant
                group_id == first_point.group_id,
                wall_left_section_steps(group_id, points@, commands@) == wall_left_section_steps(
                    first_point.group_id,
                    seq![first_point],
                    old(commands)@,
                ),
            decreases commands@.len(),
        {
            match next_token_or(commands, "more commands for left wall section") {
                Ok(token) => match token {
                    Token::WallLeftNext(p) => {
                        match verify_group_id(commands, group_id, p.group_id) {
                            Ok(_) => {
                                points.push(p);
                            },
                            Err(e) => {
                                return Err(e);
                            },
                        }
                    },
                    Token::WallLeftEnd(p) => {
                        match verify_group_id(commands, group_id, p.group_id) {
                            Ok(_) => {
                                points.push(p);
                                return Ok(Self { group_id: group_id, points });
                            },
                            Err(e) => {
                                return Err(e);
                            },
                        }
                    },
                    _ => {
                        return Err(commands.err_semantic("unexpected command on left wall section"));
                    },
                },
                Err(e) => {
                    return Err(e);
                },
            }
        }
    }
}

impl WallSection {
    pub(crate) fn wall_right_from_commands(commands: &mut Commands, first_point: WallPoint) -> (r: Result<
        Self,
        ParseError,
    >)
        ensures
            ({
                let (rs, rest) = wall_right_section_steps(first_point.group_id, seq![first_point], old(commands)@);
                final(commands)@ == rest && match (r, rs) {
                    (Ok(sec), Ok(sv)) => sec@ == sv,
                    (Err(e), Err(ev)) => e@ == ev,
                    _ => false,
                }
            }),
    {
        let group_id = first_point.group_id;
        let mut points = Vec::new();
        points.push(first_point);
        loop
            invariant
                group_id == first_point.group_id,
                wall_right_section_steps(group_id, points@, commands@) == wall_right_section_steps(
                    first_point.group_id,
                    seq![first_point],
                    old(commands)@,
                ),
            decreases commands@.len(),
        {
            match next_token_or(commands, "more commands for right wall section") {
                Ok(token) => match token {
                    Token::WallRightNext(p) => {
                        match verify_group_id(commands, group_id, p.group_id) {
                            Ok(_) => {
                                points.push(p);
                            },
                            Err(e) => {
                                return Err(e);
                            },
                        }
                    },
                    Token::WallRightEnd(p) => {
                        match verify_group_id(commands, group_id, p.group_id) {
                            Ok(_) => {
                                points.push(p);
                                return Ok(Self { group_id: group_id, points });
                            },
                            Err(e) => {
                                return Err(e);
                            },
                        }
                    },
                    _ => {
                        return Err(commands.err_semantic("unexpected command on right wall section"));
                    },
                },
                Err(e) => {
                    return Err(e);
                },
            }
        }
    }
}

impl LaneSection {
    pub(crate) fn lane_left_from_commands(commands: &mut Commands, first_point: LanePoint) -> (r: Result<
        Self,
        ParseError,
    >)
        ensures
            ({
                let (rs, rest) = lane_left_section_steps(first_point.group_id, seq![first_point], old(commands)@);
                final(commands)@ == rest && match (r, rs) {
                    (Ok(sec), Ok(sv)) => sec@ == sv,
                    (Err(e), Err(ev)) => e@ == ev,
                    _ => false,
                }
            }),
    {
        let group_id = first_point.group_id;
        let mut points = Vec::new();
        points.push(first_point);
        loop
            invariant
                group_id == first_point.group_id,
                lane_left_section_steps(group_id, points@, commands@) == lane_left_section_steps(
                    first_point.group_id,
                    seq![first_point],
                    old(commands)@,
                ),
            decreases commands@.len(),
        {
            match next_token_or(commands, "more commands for left lane section") {
                Ok(token) => match token {
                    Token::LaneLeftNext(p) => {
                        match verify_group_id(commands, group_id, p.group_id) {
                            Ok(_) => {
                                points.push(p);
                            },
                            Err(e) => {
                                return Err(e);
                            },
                        }
                    },
                    Token::LaneLeftEnd(p) => {
                        match verify_group_id(commands, group_id, p.group_id) {
                            Ok(_) => {
                                points.push(p);
                                return Ok(Self { group_id: group_id, points });
                            },
                            Err(e) => {
                                return Err(e);
                            },
                        }
                    },
                    _ => {
                        return Err(commands.err_semantic("unexpected command on left lane section"));
                    },
                },
                Err(e) => {
                    return Err(e);
                },
            }
        }
    }
}

impl LaneSection {
    pub(crate) fn lane_center_from_commands(commands: &mut Commands, first_point: LanePoint) -> (r: Result<
        Self,
        ParseError,
    >)
        ensures
            ({
                let (rs, rest) = lane_center_section_steps(first_point.group_id, seq![first_point], old(commands)@);
                final(commands)@ == rest && match (r, rs) {
                    (Ok(sec), Ok(sv)) => sec@ == sv,
                    (Err(e), Err(ev)) => e@ == ev,
                    _ => false,
                }
            }),
    {
        let group_id = first_point.group_id;
        let mut points = Vec::new();
        points.push(first_point);
        loop
            invariant
                group_id == first_point.group_id,
                lane_center_section_steps(group_id, points@, commands@) == lane_center_section_steps(
                    first_point.group_id,
                    seq![first_point],
                    old(commands)@,
                ),
            decreases commands@.len(),
        {
            match next_token_or(commands, "more commands for center lane section") {
                Ok(token) => match token {
                    Token::LaneCenterNext(p) => {
                        match verify_group_id(commands, group_id, p.group_id) {
                            Ok(_) => {
                                points.push(p);
                            },
                            Err(e) => {
                                return Err(e);
                            },
                        }
                    },
                    Token::LaneCenterEnd(p) => {
                        match verify_group_id(commands, group_id, p.group_id) {
                            Ok(_) => {
                                points.push(p);
                                return Ok(Self { group_id: group_id, points });
                            },
                            Err(e) => {
                                return Err(e);
                            },
                        }
                    },
                    _ => {
                        return Err(commands.err_semantic("unexpected command on center lane section"));
                    },
                },
                Err(e) => {
                    return Err(e);
                },
            }
        }
    }
}

impl LaneSection {
    pub(crate) fn lane_right_from_commands(commands: &mut Commands, first_point: LanePoint) -> (r: Result<
        Self,
        ParseError,
    >)
        ensures
            ({
                let (rs, rest) = lane_right_section_steps(first_point.group_id, seq![first_point], old(commands)@);
                final(commands)@ == rest && match (r, rs) {
                    (Ok(sec), Ok(sv)) => sec@ == sv,
                    (Err(e), Err(ev)) => e@ == ev,
                    _ => false,
                }
            }),
    {
        let group_id = first_point.group_id;
        let mut points = Vec::new();
        points.push(first_point);
        loop
            invariant
                group_id == first_point.group_id,
                lane_right_section_steps(group_id, points@, commands@) == lane_right_section_steps(
                    first_point.group_id,
                    seq![first_point],
                    old(commands)@,
                ),
            decreases commands@.len(),
        {
            match next_token_or(commands, "more commands for right lane section") {
                Ok(token) => match token {
                    Token::LaneRightNext(p) => {
                        match verify_group_id(commands, group_id, p.group_id) {
                            Ok(_) => {
                                points.push(p);
                            },
                            Err(e) => {
                                return Err(e);
                            },
                        }
                    },
                    Token::LaneRightEnd(p) => {
                        match verify_group_id(commands, group_id, p.group_id) {
                            Ok(_) => {
                                points.push(p);
                                return Ok(Self { group_id: group_id, points });
                            },
                            Err(e) => {
                                return Err(e);
                            },
                        }
                    },
                    _ => {
                        return Err(commands.err_semantic("unexpected command on right lane section"));
                    },
                },
                Err(e) => {
                    return Err(e);
                },
            }
        }
    }
}

impl LaneSection {
    pub(crate) fn enemy_lane_from_commands(commands: &mut Commands, first_point: EnemyLanePoint) -> (r: Result<
        Self,
        ParseError,
    >)
        ensures
            ({
                let (rs, rest) = enemy_lane_section_steps(first_point.group_id, seq![lane_point_of_enemy(first_point)], old(commands)@);
                final(commands)@ == rest && match (r, rs) {
                    (Ok(sec), Ok(sv)) => sec@ == sv,
                    (Err(e), Err(ev)) => e@ == ev,
                    _ => false,
                }
            }),
    {
        let group_id = first_point.group_id;
        let mut points = Vec::new();
        points.push(LanePoint::from_enemy_lane_point(first_point));
        loop
            invariant
                group_id == first_point.group_id,
                enemy_lane_section_steps(group_id, points@, commands@) == enemy_lane_section_steps(
                    first_point.group_id,
                    seq![lane_point_of_enemy(first_point)],
                    old(commands)@,
                ),
            decreases commands@.len(),
        {
            match next_token_or(commands, "more commands for enemy lane section") {
                Ok(token) => match token {
                    Token::EnemyLaneNext(p) => {
                        match verify_group_id(commands, group_id, p.group_id) {
                            Ok(_) => {
                                points.push(LanePoint::from_enemy_lane_point(p));
                            },
                            Err(e) => {
                                return Err(e);
                            },
                        }
                    },
                    Token::EnemyLaneEnd(p) => {
                        match verify_group_id(commands, group_id, p.group_id) {
                            Ok(_) => {
                                points.push(LanePoint::from_enemy_lane_point(p));
                                return Ok(Self { group_id: group_id, points });
                            },
                            Err(e) => {
                                return Err(e);
                            },
                        }
                    },
                    _ => {
                        return Err(commands.err_semantic("unexpected command on enemy lane section"));
                    },
                },
                Err(e) => {
                    return Err(e);
                },
            }
        }
    }
}

impl ColorfulLaneSection {
    pub(crate) fn from_commands(commands: &mut Commands, first_point: ColorfulLanePoint) -> (r: Result<
        Self,
        ParseError,
    >)
        ensures
            ({
                let (rs, rest) = colorful_lane_section_steps(first_point.group_id, seq![first_point], old(commands)@);
                final(commands)@ == rest && match (r, rs) {
                    (Ok(sec), Ok(sv)) => sec@ == sv,
                    (Err(e), Err(ev)) => e@ == ev,
                    _ => false,
                }
            }),
    {
        let group_id = first_point.group_id;
        let mut points = Vec::new();
        points.push(first_point);
        loop
            invariant
                group_id == first_point.group_id,
                colorful_lane_section_steps(group_id, points@, commands@) == colorful_lane_section_steps(
                    first_point.group_id,
                    seq![first_point],
                    old(commands)@,
                ),
            decreases commands@.len(),
        {
            match next_token_or(commands, "more commands for colorful lane section") {
                Ok(token) => match token {
                    Token::ColorfulLaneNext(p) => {
                        match verify_group_id(commands, group_id, p.group_id) {
                            Ok(_) => {
                                points.push(p);
                            },
                            Err(e) => {
                                return Err(e);
                            },
                        }
                    },
                    Token::ColorfulLaneEnd(p) => {
                        match verify_group_id(commands, group_id, p.group_id) {
                            Ok(_) => {
                                points.push(p);
                                return Ok(Self { group_id: group_id, points });
                            },
                            Err(e) => {
                                return Err(e);
                            },
                        }
                    },
                    _ => {
                        return Err(commands.err_semantic("unexpected command on colorful lane section"));
                    },
                },
                Err(e) => {
                    return Err(e);
                },
            }
        }
    }
}

impl BeamSection {
    pub(crate) fn from_commands(commands: &mut Commands, first_point: BeamPoint) -> (r: Result<
        Self,
        ParseError,
    >)
        ensures
            ({
                let (rs, rest) = beam_section_steps(first_point.record_id, seq![first_point], old(commands)@);
                final(commands)@ == rest && match (r, rs) {
                    (Ok(sec), Ok(sv)) => sec@ == sv,
                    (Err(e), Err(ev)) => e@ == ev,
                    _ => false,
                }
            }),
    {
        let group_id = first_point.record_id;
        let mut points = Vec::new();
        points.push(first_point);
        loop
            invariant
                group_id == first_point.record_id,
                beam_section_steps(group_id, points@, commands@) == beam_section_steps(
                    first_point.record_id,
                    seq![first_point],
                    old(commands)@,
                ),
            decreases commands@.len(),
        {
            match next_token_or(commands, "more commands for enemy lane section") {
                Ok(token) => match token {
                    Token::BeamNext(p) => {
                        match verify_group_id(commands, group_id, p.record_id) {
                            Ok(_) => {
                                points.push(p);
                            },
                            Err(e) => {
                                return Err(e);
                            },
                        }
                    },
                    Token::BeamEnd(p) => {
                        match verify_group_id(commands, group_id, p.record_id) {
                            Ok(_) => {
                                points.push(p);
                                return Ok(Self { record_id: group_id, points });
                            },
                            Err(e) => {
                                return Err(e);
                            },
                        }
                    },
                    _ => {
                        return Err(commands.err_semantic("unexpected command on enemy lane section"));
                    },
                },
                Err(e) => {
                    return Err(e);
                },
            }
        }
    }
}

impl ObliqueBeamSection {
    pub(crate) fn from_commands(commands: &mut Commands, first_point: ObliqueBeamPoint) -> (r: Result<
        Self,
        ParseError,
    >)
        ensures
            ({
                let (rs, rest) = oblique_beam_section_steps(first_point.record_id, seq![first_point], old(commands)@);
                final(commands)@ == rest && match (r, rs) {
                    (Ok(sec), Ok(sv)) => sec@ == sv,
                    (Err(e), Err(ev)) => e@ == ev,
                    _ => false,
                }
            }),
    {
        let group_id = first_point.record_id;
        let mut points = Vec::new();
        points.push(first_point);
        loop
            invariant
                group_id == first_point.record_id,
                oblique_beam_section_steps(group_id, points@, commands@) == oblique_beam_section_steps(
                    first_point.record_id,
                    seq![first_point],
                    old(commands)@,
                ),
            decreases commands@.len(),
        {
            match next_token_or(commands, "more commands for enemy lane section") {
                Ok(token) => match token {
                    Token::ObliqueBeamNext(p) => {
                        match verify_group_id(commands, group_id, p.record_id) {
                            Ok(_) => {
                                points.push(p);
                            },
                            Err(e) => {
                                return Err(e);
                            },
                        }
                    },
                    Token::ObliqueBeamEnd(p) => {
                        match verify_group_id(commands, group_id, p.record_id) {
                            Ok(_) => {
                                points.push(p);
                                return Ok(Self { record_id: group_id, points });
                            },
                            Err(e) => {
                                return Err(e);
                            },
                        }
                    },
                    _ => {
                        return Err(commands.err_semantic("unexpected command on enemy lane section"));
                    },
                },
                Err(e) => {
                    return Err(e);
                },
            }
        }
    }
}

/// Spec-level views of token payload sequences.
pub open spec fn soflan_views(s: Seq<Soflan>) -> Seq<SoflanV> {
    s.map_values(|x: Soflan| x@)
}

pub open spec fn bell_views(s: Seq<Bell>) -> Seq<BellV> {
    s.map_values(|x: Bell| x@)
}

pub open spec fn bullet_views(s: Seq<Bullet>) -> Seq<BulletV> {
    s.map_values(|x: Bullet| x@)
}

pub open spec fn palette_views(s: Seq<BulletPalette>) -> Seq<BulletPaletteV> {
    s.map_values(|x: BulletPalette| x@)
}

pub open spec fn wall_section_views(s: Seq<WallSection>) -> Seq<WallSectionV> {
    s.map_values(|x: WallSection| x@)
}

pub open spec fn lane_section_views(s: Seq<LaneSection>) -> Seq<LaneSectionV> {
    s.map_values(|x: LaneSection| x@)
}

pub open spec fn colorful_section_views(s: Seq<ColorfulLaneSection>) -> Seq<ColorfulLaneSectionV> {
    s.map_values(|x: ColorfulLaneSection| x@)
}

pub open spec fn beam_section_views(s: Seq<BeamSection>) -> Seq<BeamSectionV> {
    s.map_values(|x: BeamSection| x@)
}

pub open spec fn oblique_section_views(s: Seq<ObliqueBeamSection>) -> Seq<ObliqueBeamSectionV> {
    s.map_values(|x: ObliqueBeamSection| x@)
}

/// Musical (rhythmical) details of the chart: tempo and time-signature
/// changes and scroll-speed events. The first BPM is the literal text from
/// the BPM definition.
#[derive(Clone, Debug, PartialEq, Eq, Hash)]
pub struct RawComposition {
    pub bpm_first: String,
    pub bpm_changes: Vec<BpmChange>,
    pub meter_first: MeterDefinition,
    pub meter_changes: Vec<MeterChange>,
    pub soflans: Vec<Soflan>,
}

pub ghost struct RawCompositionV {
    pub bpm_first: Seq<char>,
    pub bpm_changes: Seq<BpmChange>,
    pub meter_first: MeterDefinition,
    pub meter_changes: Seq<MeterChange>,
    pub soflans: Seq<SoflanV>,
}

impl View for RawComposition {
    type V = RawCompositionV;

    open spec fn view(&self) -> RawCompositionV {
        RawCompositionV {
            bpm_first: self.bpm_first@,
            bpm_changes: self.bpm_changes@,
            meter_first: self.meter_first,
            meter_changes: self.meter_changes@,
            soflans: soflan_views(self.soflans@),
        }
    }
}

/// The flat note lists, before resolution.
#[derive(Clone, Debug, PartialEq, Eq, Hash)]
pub struct RawNotes {
    pub bells: Vec<Bell>,
    pub flicks: Vec<Flick>,
    pub critical_flicks: Vec<Flick>,
    pub taps: Vec<Tap>,
    pub critical_taps: Vec<Tap>,
    pub holds: Vec<Hold>,
    pub critical_holds: Vec<Hold>,
}

pub ghost struct RawNotesV {
    pub bells: Seq<BellV>,
    pub flicks: Seq<Flick>,
    pub critical_flicks: Seq<Flick>,
    pub taps: Seq<Tap>,
    pub critical_taps: Seq<Tap>,
    pub holds: Seq<Hold>,
    pub critical_holds: Seq<Hold>,
}

impl View for RawNotes {
    type V = RawNotesV;

    open spec fn view(&self) -> RawNotesV {
        RawNotesV {
            bells: bell_views(self.bells@),
            flicks: self.flicks@,
            critical_flicks: self.critical_flicks@,
            taps: self.taps@,
            critical_taps: self.critical_taps@,
            holds: self.holds@,
            critical_holds: self.critical_holds@,
        }
    }
}

/// The stitched wall, lane and beam sections. Walls, lanes and beams are
/// grammar-enforced to be contiguous in the command stream.
#[derive(Clone, Debug, PartialEq, Eq, Hash)]
pub struct RawTrack {
    pub walls_left: Vec<WallSection>,
    pub walls_right: Vec<WallSection>,
    pub lanes_left: Vec<LaneSection>,
    pub lanes_center: Vec<LaneSection>,
    pub lanes_right: Vec<LaneSection>,
    pub colorful_lanes: Vec<ColorfulLaneSection>,
    pub enemy_lanes: Vec<LaneSection>,
    pub lane_disappearances: Vec<LaneEvent>,
    pub lane_blocks: Vec<LaneEvent>,
    pub beams: Vec<BeamSection>,
    pub oblique_beams: Vec<ObliqueBeamSection>,
}

pub ghost struct RawTrackV {
    pub walls_left: Seq<WallSectionV>,
    pub walls_right: Seq<WallSectionV>,
    pub lanes_left: Seq<LaneSectionV>,
    pub lanes_center: Seq<LaneSectionV>,
    pub lanes_right: Seq<LaneSectionV>,
    pub colorful_lanes: Seq<ColorfulLaneSectionV>,
    pub enemy_lanes: Seq<LaneSectionV>,
    pub lane_disappearances: Seq<LaneEvent>,
    pub lane_blocks: Seq<LaneEvent>,
    pub beams: Seq<BeamSectionV>,
    pub oblique_beams: Seq<ObliqueBeamSectionV>,
}

impl View for RawTrack {
    type V = RawTrackV;

    open spec fn view(&self) -> RawTrackV {
        RawTrackV {
            walls_left: wall_section_views(self.walls_left@),
            walls_right: wall_section_views(self.walls_right@),
            lanes_left: lane_section_views(self.lanes_left@),
            lanes_center: lane_section_views(self.lanes_center@),
            lanes_right: lane_section_views(self.lanes_right@),
            colorful_lanes: colorful_section_views(self.colorful_lanes@),
            enemy_lanes: lane_section_views(self.enemy_lanes@),
            lane_disappearances: self.lane_disappearances@,
            lane_blocks: self.lane_blocks@,
            beams: beam_section_views(self.beams@),
            oblique_beams: oblique_section_views(self.oblique_beams@),
        }
    }
}

/// The raw aggregate that grammar-level parsing produces.
#[derive(Clone, Debug, PartialEq, Eq, Hash)]
pub struct RawOgkr {
    /// Header information and metadata.
    pub header: Header,
    /// Musical (rhythmical) details of the game, such as bpms and time
    /// signatures.
    pub composition: RawComposition,
    /// Bullet palette list for bullet behaviour.
    pub bullet_pallete_list: Vec<BulletPalette>,
    pub bullets: Vec<Bullet>,
    pub click_sounds: Vec<ClickSound>,
    pub enemy_wave_assignment: EnemyWaveAssignment,
    pub track: RawTrack,
    pub notes: RawNotes,
}

pub ghost struct RawOgkrV {
    pub header: HeaderV,
    pub composition: RawCompositionV,
    pub bullet_pallete_list: Seq<BulletPaletteV>,
    pub bullets: Seq<BulletV>,
    pub click_sounds: Seq<ClickSound>,
    pub enemy_wave_assignment: EnemyWaveAssignment,
    pub track: RawTrackV,
    pub notes: RawNotesV,
}

impl View for RawOgkr {
    type V = RawOgkrV;

    open spec fn view(&self) -> RawOgkrV {
        RawOgkrV {
            header: self.header@,
            composition: self.composition@,
            bullet_pallete_list: palette_views(self.bullet_pallete_list@),
            bullets: bullet_views(self.bullets@),
            click_sounds: self.click_sounds@,
            enemy_wave_assignment: self.enemy_wave_assignment,
            track: self.track@,
            notes: self.notes@,
        }
    }
}

impl RawOgkr {
    /// The aggregate before any command has been applied.
    pub open spec fn empty() -> RawOgkrV {
        RawOgkrV {
            header: Header::empty(),
            composition: RawCompositionV {
                bpm_first: "0"@,
                bpm_changes: Seq::empty(),
                meter_first: MeterDefinition { num_beats: 0, note_value: 0 },
                meter_changes: Seq::empty(),
                soflans: Seq::empty(),
            },
            bullet_pallete_list: Seq::empty(),
            bullets: Seq::empty(),
            click_sounds: Seq::empty(),
            enemy_wave_assignment: EnemyWaveAssignment::empty(),
            track: RawTrackV {
                walls_left: Seq::empty(),
                walls_right: Seq::empty(),
                lanes_left: Seq::empty(),
                lanes_center: Seq::empty(),
                lanes_right: Seq::empty(),
                colorful_lanes: Seq::empty(),
                enemy_lanes: Seq::empty(),
                lane_disappearances: Seq::empty(),
                lane_blocks: Seq::empty(),
                beams: Seq::empty(),
                oblique_beams: Seq::empty(),
            },
            notes: RawNotesV {
                bells: Seq::empty(),
                flicks: Seq::empty(),
                critical_flicks: Seq::empty(),
                taps: Seq::empty(),
                critical_taps: Seq::empty(),
                holds: Seq::empty(),
                critical_holds: Seq::empty(),
            },
        }
    }

    pub fn new() -> (r: Self)
        ensures
            r@ == Self::empty(),
    {
        let r = Self {
            header: Header::new(),
            composition: RawComposition {
                bpm_first: String::from_str("0"),
                bpm_changes: Vec::new(),
                meter_first: MeterDefinition { num_beats: 0, note_value: 0 },
                meter_changes: Vec::new(),
                soflans: Vec::new(),
            },
            bullet_pallete_list: Vec::new(),
            bullets: Vec::new(),
            click_sounds: Vec::new(),
            enemy_wave_assignment: EnemyWaveAssignment::new(),
            track: RawTrack {
                walls_left: Vec::new(),
                walls_right: Vec::new(),
                lanes_left: Vec::new(),
                lanes_center: Vec::new(),
                lanes_right: Vec::new(),
                colorful_lanes: Vec::new(),
                enemy_lanes: Vec::new(),
                lane_disappearances: Vec::new(),
                lane_blocks: Vec::new(),
                beams: Vec::new(),
                oblique_beams: Vec::new(),
            },
            notes: RawNotes {
                bells: Vec::new(),
                flicks: Vec::new(),
                critical_flicks: Vec::new(),
                taps: Vec::new(),
                critical_taps: Vec::new(),
                holds: Vec::new(),
                critical_holds: Vec::new(),
            },
        };
        proof {
            assert(soflan_views(r.composition.soflans@) =~= Seq::<SoflanV>::empty());
            assert(bell_views(r.notes.bells@) =~= Seq::<BellV>::empty());
            assert(bullet_views(r.bullets@) =~= Seq::<BulletV>::empty());
            assert(palette_views(r.bullet_pallete_list@) =~= Seq::<BulletPaletteV>::empty());
            assert(wall_section_views(r.track.walls_left@) =~= Seq::<WallSectionV>::empty());
            assert(wall_section_views(r.track.walls_right@) =~= Seq::<WallSectionV>::empty());
            assert(lane_section_views(r.track.lanes_left@) =~= Seq::<LaneSectionV>::empty());
            assert(lane_section_views(r.track.lanes_center@) =~= Seq::<LaneSectionV>::empty());
            assert(lane_section_views(r.track.lanes_right@) =~= Seq::<LaneSectionV>::empty());
            assert(lane_section_views(r.track.enemy_lanes@) =~= Seq::<LaneSectionV>::empty());
            assert(colorful_section_views(r.track.colorful_lanes@) =~= Seq::<
                ColorfulLaneSectionV,
            >::empty());
            assert(beam_section_views(r.track.beams@) =~= Seq::<BeamSectionV>::empty());
            assert(oblique_section_views(r.track.oblique_beams@) =~= Seq::<
                ObliqueBeamSectionV,
            >::empty());
        }
        r
    }
}

/// The aggregate after one standalone header or totals command. `None` when
/// the token is not such a command. Later occurrences of a header scalar
/// silently overwrite earlier ones: last write wins.
pub open spec fn st_apply_header(acc: RawOgkrV, t: TokenV) -> Option<RawOgkrV> {
    match t {
        TokenV::Version(v) => Some(
            RawOgkrV { header: HeaderV { version: Some(v), ..acc.header }, ..acc },
        ),
        TokenV::Creator(v) => Some(
            RawOgkrV { header: HeaderV { creator: Some(v), ..acc.header }, ..acc },
        ),
        TokenV::BpmDefinition(v) => Some(
            RawOgkrV {
                header: HeaderV { bpm_definition: Some(v), ..acc.header },
                composition: RawCompositionV { bpm_first: v.first, ..acc.composition },
                ..acc
            },
        ),
        TokenV::MeterDefinition(v) => Some(
            RawOgkrV {
                header: HeaderV { meter_definition: Some(v), ..acc.header },
                composition: RawCompositionV { meter_first: v, ..acc.composition },
                ..acc
            },
        ),
        TokenV::TickResolution(v) => Some(
            RawOgkrV { header: HeaderV { tick_resolution: Some(v), ..acc.header }, ..acc },
        ),
        TokenV::XResolution(v) => Some(
            RawOgkrV { header: HeaderV { x_resolution: Some(v), ..acc.header }, ..acc },
        ),
        TokenV::ClickDefinition(v) => Some(
            RawOgkrV { header: HeaderV { click_definition: Some(v), ..acc.header }, ..acc },
        ),
        TokenV::Tutorial(v) => Some(
            RawOgkrV { header: HeaderV { tutorial: Some(v), ..acc.header }, ..acc },
        ),
        TokenV::BulletDamage(v) => Some(
            RawOgkrV {
                header: HeaderV {
                    damage_values: DamageValuesV { normal: v.damage, ..acc.header.damage_values },
                    ..acc.header
                },
                ..acc
            },
        ),
        TokenV::HardBulletDamage(v) => Some(
            RawOgkrV {
                header: HeaderV {
                    damage_values: DamageValuesV { hard: v.damage, ..acc.header.damage_values },
                    ..acc.header
                },
                ..acc
            },
        ),
        TokenV::DangerBulletDamage(v) => Some(
            RawOgkrV {
                header: HeaderV {
                    damage_values: DamageValuesV { danger: v.damage, ..acc.header.damage_values },
                    ..acc.header
                },
                ..acc
            },
        ),
        TokenV::BeamDamage(v) => Some(
            RawOgkrV {
                header: HeaderV {
                    damage_values: DamageValuesV { beam: v.damage, ..acc.header.damage_values },
                    ..acc.header
                },
                ..acc
            },
        ),
        TokenV::ProgJudgeBpm(v) => Some(
            RawOgkrV { header: HeaderV { prog_judge_bpm: Some(v), ..acc.header }, ..acc },
        ),
        TokenV::TotalNotes(v) => Some(
            RawOgkrV {
                header: HeaderV {
                    totals: Totals { notes: v.value, ..acc.header.totals },
                    ..acc.header
                },
                ..acc
            },
        ),
        TokenV::TotalTapNotes(v) => Some(
            RawOgkrV {
                header: HeaderV {
                    totals: Totals { notes: v.value, ..acc.header.totals },
                    ..acc.header
                },
                ..acc
            },
        ),
        TokenV::TotalHoldNotes(v) => Some(
            RawOgkrV {
                header: HeaderV {
                    totals: Totals { hold: v.value, ..acc.header.totals },
                    ..acc.header
                },
                ..acc
            },
        ),
        TokenV::TotalSideNotes(v) => Some(
            RawOgkrV {
                header: HeaderV {
                    totals: Totals { side: v.value, ..acc.header.totals },
                    ..acc.header
                },
                ..acc
            },
        ),
        TokenV::TotalSideHoldNotes(v) => Some(
            RawOgkrV {
                header: HeaderV {
                    totals: Totals { side: v.value, ..acc.header.totals },
                    ..acc.header
                },
                ..acc
            },
        ),
        TokenV::TotalFlickNotes(v) => Some(
            RawOgkrV {
                header: HeaderV {
                    totals: Totals { flick: v.value, ..acc.header.totals },
                    ..acc.header
                },
                ..acc
            },
        ),
        TokenV::TotalBellNotes(v) => Some(
            RawOgkrV {
                header: HeaderV {
                    totals: Totals { bell: v.value, ..acc.header.totals },
                    ..acc.header
                },
                ..acc
            },
        ),
        _ => None,
    }
}

/// The aggregate after one standalone event, note or bullet command. `None`
/// when the token is not such a command.
pub open spec fn st_apply_event(acc: RawOgkrV, t: TokenV) -> Option<RawOgkrV> {
    match t {
        TokenV::BulletPalette(v) => Some(
            RawOgkrV { bullet_pallete_list: acc.bullet_pallete_list.push(v), ..acc },
        ),
        TokenV::BpmChange(v) => Some(
            RawOgkrV {
                composition: RawCompositionV {
                    bpm_changes: acc.composition.bpm_changes.push(v),
                    ..acc.composition
                },
                ..acc
            },
        ),
        TokenV::MeterChange(v) => Some(
            RawOgkrV {
                composition: RawCompositionV {
                    meter_changes: acc.composition.meter_changes.push(v),
                    ..acc.composition
                },
                ..acc
            },
        ),
        TokenV::Soflan(v) => Some(
            RawOgkrV {
                composition: RawCompositionV {
                    soflans: acc.composition.soflans.push(v),
                    ..acc.composition
                },
                ..acc
            },
        ),
        TokenV::ClickSound(v) => Some(
            RawOgkrV { click_sounds: acc.click_sounds.push(v), ..acc },
        ),
        TokenV::EnemySet(v) => Some(
            RawOgkrV { enemy_wave_assignment: acc.enemy_wave_assignment.updated(v), ..acc },
        ),
        TokenV::LaneDisappearance(v) => Some(
            RawOgkrV {
                track: RawTrackV {
                    lane_disappearances: acc.track.lane_disappearances.push(v),
                    ..acc.track
                },
                ..acc
            },
        ),
        TokenV::LaneBlock(v) => Some(
            RawOgkrV {
                track: RawTrackV { lane_blocks: acc.track.lane_blocks.push(v), ..acc.track },
                ..acc
            },
        ),
        TokenV::Bullet(v) => Some(RawOgkrV { bullets: acc.bullets.push(v), ..acc }),
        TokenV::Bell(v) => Some(
            RawOgkrV { notes: RawNotesV { bells: acc.notes.bells.push(v), ..acc.notes }, ..acc },
        ),
        TokenV::Flick(v) => Some(
            RawOgkrV { notes: RawNotesV { flicks: acc.notes.flicks.push(v), ..acc.notes }, ..acc },
        ),
        TokenV::CriticalFlick(v) => Some(
            RawOgkrV {
                notes: RawNotesV {
                    critical_flicks: acc.notes.critical_flicks.push(v),
                    ..acc.notes
                },
                ..acc
            },
        ),
        TokenV::Tap(v) => Some(
            RawOgkrV { notes: RawNotesV { taps: acc.notes.taps.push(v), ..acc.notes }, ..acc },
        ),
        TokenV::CriticalTap(v) => Some(
            RawOgkrV {
                notes: RawNotesV { critical_taps: acc.notes.critical_taps.push(v), ..acc.notes },
                ..acc
            },
        ),
        TokenV::Hold(v) => Some(
            RawOgkrV { notes: RawNotesV { holds: acc.notes.holds.push(v), ..acc.notes }, ..acc },
        ),
        TokenV::CriticalHold(v) => Some(
            RawOgkrV {
                notes: RawNotesV { critical_holds: acc.notes.critical_holds.push(v), ..acc.notes },
                ..acc
            },
        ),
        _ => None,
    }
}

/// The aggregate after one standalone command of either kind.
pub open spec fn st_apply(acc: RawOgkrV, t: TokenV) -> Option<RawOgkrV> {
    match st_apply_header(acc, t) {
        Some(a) => Some(a),
        None => st_apply_event(acc, t),
    }
}

#[verifier::rlimit(100)]
fn apply_header(ogkr: &mut RawOgkr, token: Token) -> (rest: Option<Token>)
    ensures
        match st_apply_header(old(ogkr)@, token@) {
            Some(a) => rest is None && final(ogkr)@ == a,
            None => final(ogkr)@ == old(ogkr)@ && match rest {
                Some(t) => t@ == token@,
                None => false,
            },
        },
{
    match token {
        Token::Version(v) => {
            ogkr.header.version = Some(v);
            None
        },
        Token::Creator(v) => {
            ogkr.header.creator = Some(v);
            None
        },
        Token::BpmDefinition(v) => {
            ogkr.composition.bpm_first = v.first.clone();
            ogkr.header.bpm_definition = Some(v);
            None
        },
        Token::MeterDefinition(v) => {
            ogkr.header.meter_definition = Some(v);
            ogkr.composition.meter_first = v;
            None
        },
        Token::TickResolution(v) => {
            ogkr.header.tick_resolution = Some(v);
            None
        },
        Token::XResolution(v) => {
            ogkr.header.x_resolution = Some(v);
            None
        },
        Token::ClickDefinition(v) => {
            ogkr.header.click_definition = Some(v);
            None
        },
        Token::Tutorial(v) => {
            ogkr.header.tutorial = Some(v);
            None
        },
        Token::BulletDamage(v) => {
            ogkr.header.damage_values.normal = v.damage;
            None
        },
        Token::HardBulletDamage(v) => {
            ogkr.header.damage_values.hard = v.damage;
            None
        },
        Token::DangerBulletDamage(v) => {
            ogkr.header.damage_values.danger = v.damage;
            None
        },
        Token::BeamDamage(v) => {
            ogkr.header.damage_values.beam = v.damage;
            None
        },
        Token::ProgJudgeBpm(v) => {
            ogkr.header.prog_judge_bpm = Some(v);
            None
        },
        Token::TotalNotes(v) => {
            ogkr.header.totals.notes = v.value;
            None
        },
        Token::TotalTapNotes(v) => {
            ogkr.header.totals.notes = v.value;
            None
        },
        Token::TotalHoldNotes(v) => {
            ogkr.header.totals.hold = v.value;
            None
        },
        Token::TotalSideNotes(v) => {
            ogkr.header.totals.side = v.value;
            None
        },
        Token::TotalSideHoldNotes(v) => {
            ogkr.header.totals.side = v.value;
            None
        },
        Token::TotalFlickNotes(v) => {
            ogkr.header.totals.flick = v.value;
            None
        },
        Token::TotalBellNotes(v) => {
            ogkr.header.totals.bell = v.value;
            None
        },
        other => Some(other),
    }
}

#[verifier::rlimit(100)]
fn apply_event(ogkr: &mut RawOgkr, token: Token) -> (applied: bool)
    ensures
        match st_apply_event(old(ogkr)@, token@) {
            Some(a) => applied && final(ogkr)@ == a,
            None => !applied && final(ogkr)@ == old(ogkr)@,
        },
{
    match token {
        Token::BulletPalette(v) => {
            proof {
                assert(palette_views(ogkr.bullet_pallete_list@.push(v)) =~= palette_views(
                    ogkr.bullet_pallete_list@,
                ).push(v@));
            }
            ogkr.bullet_pallete_list.push(v);
            true
        },
        Token::BpmChange(v) => {
            ogkr.composition.bpm_changes.push(v);
            true
        },
        Token::MeterChange(v) => {
            ogkr.composition.meter_changes.push(v);
            true
        },
        Token::Soflan(v) => {
            proof {
                assert(soflan_views(ogkr.composition.soflans@.push(v)) =~= soflan_views(
                    ogkr.composition.soflans@,
                ).push(v@));
            }
            ogkr.composition.soflans.push(v);
            true
        },
        Token::ClickSound(v) => {
            ogkr.click_sounds.push(v);
            true
        },
        Token::EnemySet(v) => {
            ogkr.enemy_wave_assignment.update_from_command(v);
            true
        },
        Token::LaneDisappearance(v) => {
            ogkr.track.lane_disappearances.push(v);
            true
        },
        Token::LaneBlock(v) => {
            ogkr.track.lane_blocks.push(v);
            true
        },
        Token::Bullet(v) => {
            proof {
                assert(bullet_views(ogkr.bullets@.push(v)) =~= bullet_views(ogkr.bullets@).push(
                    v@,
                ));
            }
            ogkr.bullets.push(v);
            true
        },
        Token::Bell(v) => {
            proof {
                assert(bell_views(ogkr.notes.bells@.push(v)) =~= bell_views(
                    ogkr.notes.bells@,
                ).push(v@));
            }
            ogkr.notes.bells.push(v);
            true
        },
        Token::Flick(v) => {
            ogkr.notes.flicks.push(v);
            true
        },
        Token::CriticalFlick(v) => {
            ogkr.notes.critical_flicks.push(v);
            true
        },
        Token::Tap(v) => {
            ogkr.notes.taps.push(v);
            true
        },
        Token::CriticalTap(v) => {
            ogkr.notes.critical_taps.push(v);
            true
        },
        Token::Hold(v) => {
            ogkr.notes.holds.push(v);
            true
        },
        Token::CriticalHold(v) => {
            ogkr.notes.critical_holds.push(v);
            true
        },
        _ => false,
    }
}

/// Applies a standalone command to the accumulator; fails when the token is
/// a section `Next`/`End` outside its owning section or an unused command.
fn apply_standalone(ogkr: &mut RawOgkr, token: Token) -> (applied: bool)
    ensures
        match st_apply(old(ogkr)@, token@) {
            Some(a) => applied && final(ogkr)@ == a,
            None => !applied && final(ogkr)@ == old(ogkr)@,
        },
{
    match apply_header(ogkr, token) {
        None => true,
        Some(t) => apply_event(ogkr, t),
    }
}

/// The raw aggregate that parsing computes from a token sequence: standalone
/// commands accumulate; a section `Start` hands the queue to the section
/// grammar; anything else is a syntax error.
pub open spec fn parse_steps(acc: RawOgkrV, toks: Seq<TokenV>) -> Result<RawOgkrV, ParseErrV>
    decreases toks.len(),
    via parse_steps_dec
{
    if toks.len() == 0 {
        Ok(acc)
    } else {
        let t = toks[0];
        let rest = toks.skip(1);
        match st_apply(acc, t) {
            Some(acc2) => parse_steps(acc2, rest),
            None => match t {
                TokenV::SectionName => parse_steps(acc, rest),
                TokenV::WallLeftStart(p) => match wall_left_section_steps(
                    p.group_id,
                    seq![p],
                    rest,
                ) {
                    (Ok(sec), rest2) => parse_steps(
                        RawOgkrV {
                            track: RawTrackV {
                                walls_left: acc.track.walls_left.push(sec),
                                ..acc.track
                            },
                            ..acc
                        },
                        rest2,
                    ),
                    (Err(e), _) => Err(e),
                },
                TokenV::WallRightStart(p) => match wall_right_section_steps(
                    p.group_id,
                    seq![p],
                    rest,
                ) {
                    (Ok(sec), rest2) => parse_steps(
                        RawOgkrV {
                            track: RawTrackV {
                                walls_right: acc.track.walls_right.push(sec),
                                ..acc.track
                            },
                            ..acc
                        },
                        rest2,
                    ),
                    (Err(e), _) => Err(e),
                },
                TokenV::LaneLeftStart(p) => match lane_left_section_steps(
                    p.group_id,
                    seq![p],
                    rest,
                ) {
                    (Ok(sec), rest2) => parse_steps(
                        RawOgkrV {
                            track: RawTrackV {
                                lanes_left: acc.track.lanes_left.push(sec),
                                ..acc.track
                            },
                            ..acc
                        },
                        rest2,
                    ),
                    (Err(e), _) => Err(e),
                },
                TokenV::LaneCenterStart(p) => match lane_center_section_steps(
                    p.group_id,
                    seq![p],
                    rest,
                ) {
                    (Ok(sec), rest2) => parse_steps(
                        RawOgkrV {
                            track: RawTrackV {
                                lanes_center: acc.track.lanes_center.push(sec),
                                ..acc.track
                            },
                            ..acc
                        },
                        rest2,
                    ),
                    (Err(e), _) => Err(e),
                },
                TokenV::LaneRightStart(p) => match lane_right_section_steps(
                    p.group_id,
                    seq![p],
                    rest,
                ) {
                    (Ok(sec), rest2) => parse_steps(
                        RawOgkrV {
                            track: RawTrackV {
                                lanes_right: acc.track.lanes_right.push(sec),
                                ..acc.track
                            },
                            ..acc
                        },
                        rest2,
                    ),
                    (Err(e), _) => Err(e),
                },
                TokenV::ColorfulLaneStart(p) => match colorful_lane_section_steps(
                    p.group_id,
                    seq![p],
                    rest,
                ) {
                    (Ok(sec), rest2) => parse_steps(
                        RawOgkrV {
                            track: RawTrackV {
                                colorful_lanes: acc.track.colorful_lanes.push(sec),
                                ..acc.track
                            },
                            ..acc
                        },
                        rest2,
                    ),
                    (Err(e), _) => Err(e),
                },
                TokenV::EnemyLaneStart(p) => match enemy_lane_section_steps(
                    p.group_id,
                    seq![lane_point_of_enemy(p)],
                    rest,
                ) {
                    (Ok(sec), rest2) => parse_steps(
                        RawOgkrV {
                            track: RawTrackV {
                                enemy_lanes: acc.track.enemy_lanes.push(sec),
                                ..acc.track
                            },
                            ..acc
                        },
                        rest2,
                    ),
                    (Err(e), _) => Err(e),
                },
                TokenV::BeamStart(p) => match beam_section_steps(p.record_id, seq![p], rest) {
                    (Ok(sec), rest2) => parse_steps(
                        RawOgkrV {
                            track: RawTrackV { beams: acc.track.beams.push(sec), ..acc.track },
                            ..acc
                        },
                        rest2,
                    ),
                    (Err(e), _) => Err(e),
                },
                TokenV::ObliqueBeamStart(p) => match oblique_beam_section_steps(
                    p.record_id,
                    seq![p],
                    rest,
                ) {
                    (Ok(sec), rest2) => parse_steps(
                        RawOgkrV {
                            track: RawTrackV {
                                oblique_beams: acc.track.oblique_beams.push(sec),
                                ..acc.track
                            },
                            ..acc
                        },
                        rest2,
                    ),
                    (Err(e), _) => Err(e),
                },
                _ => Err(ParseErrV::SyntaxError("unexpected command token"@)),
            },
        }
    }
}

#[via_fn]
proof fn parse_steps_dec(acc: RawOgkrV, toks: Seq<TokenV>) {
    if toks.len() > 0 {
        let t = toks[0];
        let rest = toks.skip(1);
        if st_apply(acc, t) is None {
            match t {
                TokenV::WallLeftStart(p) => {
                    lemma_wall_left_section_len(p.group_id, seq![p], rest);
                },
                TokenV::WallRightStart(p) => {
                    lemma_wall_right_section_len(p.group_id, seq![p], rest);
                },
                TokenV::LaneLeftStart(p) => {
                    lemma_lane_left_section_len(p.group_id, seq![p], rest);
                },
                TokenV::LaneCenterStart(p) => {
                    lemma_lane_center_section_len(p.group_id, seq![p], rest);
                },
                TokenV::LaneRightStart(p) => {
                    lemma_lane_right_section_len(p.group_id, seq![p], rest);
                },
                TokenV::ColorfulLaneStart(p) => {
                    lemma_colorful_lane_section_len(p.group_id, seq![p], rest);
                },
                TokenV::EnemyLaneStart(p) => {
                    lemma_enemy_lane_section_len(p.group_id, seq![lane_point_of_enemy(p)], rest);
                },
                TokenV::BeamStart(p) => {
                    lemma_beam_section_len(p.record_id, seq![p], rest);
                },
                TokenV::ObliqueBeamStart(p) => {
                    lemma_oblique_beam_section_len(p.record_id, seq![p], rest);
                },
                _ => {},
            }
        }
    }
}

/// Parses command tokens into the raw aggregate.
///
/// Commands can be out of order and need not be grouped by sections, except
/// for walls, lanes and beams with their distinct start, next and end
/// commands, which must be contiguous.
#[verifier::rlimit(100)]
pub fn parse_tokens(token_stream: TokenStream) -> (r: Result<RawOgkr, ParseError>)
    ensures
        match (r, parse_steps(RawOgkr::empty(), token_stream@)) {
            (Ok(ogkr), Ok(a)) => ogkr@ == a,
            (Err(e), Err(ev)) => e@ == ev,
            _ => false,
        },
{
    let mut commands = Commands::new_from_token_stream(token_stream);
    let mut ogkr = RawOgkr::new();
    loop
        invariant
            parse_steps(ogkr@, commands@) == parse_steps(RawOgkr::empty(), token_stream@),
        decreases commands@.len(),
    {
        let token = match commands.next_command() {
            Some(t) => t,
            None => {
                return Ok(ogkr);
            },
        };
        let ghost rest0 = commands@;
        match token {
            Token::SectionName => {},
            Token::WallLeftStart(p) => {
                match WallSection::wall_left_from_commands(&mut commands, p) {
                    Ok(sec) => {
                        proof {
                            lemma_wall_left_section_len(p.group_id, seq![p], rest0);
                            assert(wall_section_views(ogkr.track.walls_left@.push(sec))
                                =~= wall_section_views(ogkr.track.walls_left@).push(sec@));
                        }
                        ogkr.track.walls_left.push(sec);
                    },
                    Err(e) => {
                        return Err(e);
                    },
                }
            },
            Token::WallRightStart(p) => {
                match WallSection::wall_right_from_commands(&mut commands, p) {
                    Ok(sec) => {
                        proof {
                            lemma_wall_right_section_len(p.group_id, seq![p], rest0);
                            assert(wall_section_views(ogkr.track.walls_right@.push(sec))
                                =~= wall_section_views(ogkr.track.walls_right@).push(sec@));
                        }
                        ogkr.track.walls_right.push(sec);
                    },
                    Err(e) => {
                        return Err(e);
                    },
                }
            },
            Token::LaneLeftStart(p) => {
                match LaneSection::lane_left_from_commands(&mut commands, p) {
                    Ok(sec) => {
                        proof {
                            lemma_lane_left_section_len(p.group_id, seq![p], rest0);
                            assert(lane_section_views(ogkr.track.lanes_left@.push(sec))
                                =~= lane_section_views(ogkr.track.lanes_left@).push(sec@));
                        }
                        ogkr.track.lanes_left.push(sec);
                    },
                    Err(e) => {
                        return Err(e);
                    },
                }
            },
            Token::LaneCenterStart(p) => {
                match LaneSection::lane_center_from_commands(&mut commands, p) {
                    Ok(sec) => {
                        proof {
                            lemma_lane_center_section_len(p.group_id, seq![p], rest0);
                            assert(lane_section_views(ogkr.track.lanes_center@.push(sec))
                                =~= lane_section_views(ogkr.track.lanes_center@).push(sec@));
                        }
                        ogkr.track.lanes_center.push(sec);
                    },
                    Err(e) => {
                        return Err(e);
                    },
                }
            },
            Token::LaneRightStart(p) => {
                match LaneSection::lane_right_from_commands(&mut commands, p) {
                    Ok(sec) => {
                        proof {
                            lemma_lane_right_section_len(p.group_id, seq![p], rest0);
                            assert(lane_section_views(ogkr.track.lanes_right@.push(sec))
                                =~= lane_section_views(ogkr.track.lanes_right@).push(sec@));
                        }
                        ogkr.track.lanes_right.push(sec);
                    },
                    Err(e) => {
                        return Err(e);
                    },
                }
            },
            Token::ColorfulLaneStart(p) => {
                match ColorfulLaneSection::from_commands(&mut commands, p) {
                    Ok(sec) => {
                        proof {
                            lemma_colorful_lane_section_len(p.group_id, seq![p], rest0);
                            assert(colorful_section_views(ogkr.track.colorful_lanes@.push(sec))
                                =~= colorful_section_views(ogkr.track.colorful_lanes@).push(sec@));
                        }
                        ogkr.track.colorful_lanes.push(sec);
                    },
                    Err(e) => {
                        return Err(e);
                    },
                }
            },
            Token::EnemyLaneStart(p) => {
                match LaneSection::enemy_lane_from_commands(&mut commands, p) {
                    Ok(sec) => {
                        proof {
                            lemma_enemy_lane_section_len(p.group_id, seq![lane_point_of_enemy(p)], rest0);
                            assert(lane_section_views(ogkr.track.enemy_lanes@.push(sec))
                                =~= lane_section_views(ogkr.track.enemy_lanes@).push(sec@));
                        }
                        ogkr.track.enemy_lanes.push(sec);
                    },
                    Err(e) => {
                        return Err(e);
                    },
                }
            },
            Token::BeamStart(p) => {
                match BeamSection::from_commands(&mut commands, p) {
                    Ok(sec) => {
                        proof {
                            lemma_beam_section_len(p.record_id, seq![p], rest0);
                            assert(beam_section_views(ogkr.track.beams@.push(sec))
                                =~= beam_section_views(ogkr.track.beams@).push(sec@));
                        }
                        ogkr.track.beams.push(sec);
                    },
                    Err(e) => {
                        return Err(e);
                    },
                }
            },
            Token::ObliqueBeamStart(p) => {
                match ObliqueBeamSection::from_commands(&mut commands, p) {
                    Ok(sec) => {
                        proof {
                            lemma_oblique_beam_section_len(p.record_id, seq![p], rest0);
                            assert(oblique_section_views(ogkr.track.oblique_beams@.push(sec))
                                =~= oblique_section_views(ogkr.track.oblique_beams@).push(sec@));
                        }
                        ogkr.track.oblique_beams.push(sec);
                    },
                    Err(e) => {
                        return Err(e);
                    },
                }
            },
            other => {
                if !apply_standalone(&mut ogkr, other) {
                    return Err(
                        ParseError::SyntaxError(String::from_str("unexpected command token")),
                    );
                }
            },
        }
    }
}



/// The `Next` tokens a run of wall points denotes.
pub open spec fn wall_left_next_run(ps: Seq<WallPoint>) -> Seq<TokenV> {
    ps.map_values(|p: WallPoint| TokenV::WallLeftNext(p))
}

/// Section contiguity: a run of `Next` points followed by an `End` point,
/// all sharing the section's group id, always assembles into one section
/// whose point list keeps the source order and consumes exactly those
/// commands, leaving the rest of the stream untouched.
pub proof fn lemma_wall_left_section_contiguous(
    gid: u32,
    acc: Seq<WallPoint>,
    ps: Seq<WallPoint>,
    endp: WallPoint,
    rest: Seq<TokenV>,
)
    requires
        forall|i: int| 0 <= i < ps.len() ==> (#[trigger] ps[i]).group_id == gid,
        endp.group_id == gid,
    ensures
        wall_left_section_steps(
            gid,
            acc,
            wall_left_next_run(ps) + seq![TokenV::WallLeftEnd(endp)] + rest,
        ) == (
            Ok::<WallSectionV, ParseErrV>(
                WallSectionV { group_id: gid, points: acc + ps.push(endp) },
            ),
            rest,
        ),
    decreases ps.len(),
{
    let toks = wall_left_next_run(ps) + seq![TokenV::WallLeftEnd(endp)] + rest;
    if ps.len() == 0 {
        assert(toks[0] == TokenV::WallLeftEnd(endp));
        assert(toks.skip(1) =~= rest);
        assert(acc.push(endp) =~= acc + ps.push(endp));
    } else {
        assert(toks[0] == TokenV::WallLeftNext(ps[0]));
        lemma_wall_left_section_contiguous(gid, acc.push(ps[0]), ps.skip(1), endp, rest);
        assert(toks.skip(1) =~= wall_left_next_run(ps.skip(1)) + seq![TokenV::WallLeftEnd(endp)]
            + rest) by {
            assert(wall_left_next_run(ps).skip(1) =~= wall_left_next_run(ps.skip(1)));
        }
        assert(acc.push(ps[0]) + ps.skip(1).push(endp) =~= acc + ps.push(endp));
    }
}

/// Group-id mismatch detection: a `Next` point whose group id differs from
/// the section's is a semantic error, never a silently merged section; the
/// mismatching token is consumed and nothing of the open section is kept.
pub proof fn lemma_wall_left_group_mismatch(
    gid: u32,
    acc: Seq<WallPoint>,
    p: WallPoint,
    rest: Seq<TokenV>,
)
    requires
        p.group_id != gid,
    ensures
        wall_left_section_steps(gid, acc, seq![TokenV::WallLeftNext(p)] + rest) == (
            Err::<WallSectionV, ParseErrV>(
                ParseErrV::SemanticError("different group ids for consequetive section"@),
            ),
            rest,
        ),
{
    let toks = seq![TokenV::WallLeftNext(p)] + rest;
    assert(toks[0] == TokenV::WallLeftNext(p));
    assert(toks.skip(1) =~= rest);
}

} // verus!
