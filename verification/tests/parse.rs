//! Tests of grammar-level raw parsing: section stitching, group-id checks
//! and the accumulator semantics.

use ogkr::lex::tokenize;
use ogkr::parse::raw::parse_tokens;
use ogkr::parse::ParseError;

fn raw_of(source: &str) -> Result<ogkr::parse::raw::RawOgkr, ParseError> {
    parse_tokens(tokenize(source).expect("must tokenize"))
}

#[test]
fn section_is_stitched_in_source_order() {
    // Start + two Next + End with one group id: one section, four points,
    // in source order.
    let raw = raw_of("WLS 7 0 0 -3\nWLN 7 1 0 -2\nWLN 7 2 0 -1\nWLE 7 3 0 0\n").expect("must parse");
    assert_eq!(raw.track.walls_left.len(), 1);
    let sec = &raw.track.walls_left[0];
    assert_eq!(sec.group_id, 7);
    assert_eq!(sec.points.len(), 4);
    assert_eq!(sec.points[0].time.measure, 0);
    assert_eq!(sec.points[1].time.measure, 1);
    assert_eq!(sec.points[2].time.measure, 2);
    assert_eq!(sec.points[3].time.measure, 3);
    assert_eq!(sec.points[0].x_position, -3);
    assert_eq!(sec.points[3].x_position, 0);
}

#[test]
fn group_id_mismatch_is_a_semantic_error() {
    let err = raw_of("WLS 1 0 0 0\nWLN 2 1 0 0\nWLE 1 2 0 0\n").expect_err("mismatch must fail");
    assert_eq!(
        err,
        ParseError::SemanticError("different group ids for consequetive section".to_string())
    );
}

#[test]
fn interleaved_command_inside_section_is_rejected() {
    let err = raw_of("LLS 1 0 0 0\nBPM 0 0 120\nLLE 1 1 0 0\n").expect_err("must fail");
    assert_eq!(
        err,
        ParseError::SemanticError("unexpected command on left lane section".to_string())
    );
}

#[test]
fn exhausted_stream_inside_section_is_a_distinct_error() {
    let err = raw_of("LCS 1 0 0 0\nLCN 1 1 0 0\n").expect_err("unterminated section must fail");
    assert_eq!(
        err,
        ParseError::SemanticErrorExpectedCommand("more commands for center lane section".to_string())
    );
}

#[test]
fn stray_section_continuation_is_a_syntax_error() {
    let err = raw_of("WLN 1 0 0 0\n").expect_err("a Next outside its section must fail");
    assert_eq!(err, ParseError::SyntaxError("unexpected command token".to_string()));
}

#[test]
fn header_scalars_take_the_last_write() {
    let raw = raw_of("TRESOLUTION 960\nTRESOLUTION 1920\nT_TOTAL 5\nT_HOLD 2\n").expect("must parse");
    assert_eq!(raw.header.tick_resolution.map(|t| t.resolution), Some(1920));
    assert_eq!(raw.header.totals.notes, 5);
    assert_eq!(raw.header.totals.hold, 2);
}

#[test]
fn bpm_definition_fills_composition_first_bpm() {
    let raw = raw_of("BPM_DEF 180 180 90 360\nBPM 4 0 200\n").expect("must parse");
    assert_eq!(raw.composition.bpm_first, "180");
    assert_eq!(raw.composition.bpm_changes.len(), 1);
    assert_eq!(raw.composition.bpm_changes[0].bpm, 200);
}

#[test]
fn standalone_commands_accumulate_in_order() {
    let raw = raw_of("TAP 1 0 0 0 0\nCTP 1 1 0 0 0\nBEL 0 0 3\nFLK 0 0 1 R\nBLT pal 0 0 2\n")
        .expect("must parse");
    assert_eq!(raw.notes.taps.len(), 1);
    assert_eq!(raw.notes.critical_taps.len(), 1);
    assert_eq!(raw.notes.bells.len(), 1);
    assert_eq!(raw.notes.flicks.len(), 1);
    assert_eq!(raw.bullets.len(), 1);
    assert_eq!(raw.bullets[0].pallete_id, "pal");
}

#[test]
fn enemy_wave_assignment_keeps_latest_time_per_wave() {
    let raw = raw_of("EST 1 0 WAVE1\nEST 2 0 BOSS\nEST 3 0 WAVE1\n").expect("must parse");
    assert_eq!(raw.enemy_wave_assignment.wave_1.measure, 3);
    assert_eq!(raw.enemy_wave_assignment.boss.measure, 2);
    assert_eq!(raw.enemy_wave_assignment.wave_2.measure, 0);
}

#[test]
fn enemy_lane_section_points_convert_to_lane_points() {
    let raw = raw_of("ENS 4 0 0 1\nENN 4 1 0 2\nENE 4 2 0 3\n").expect("must parse");
    assert_eq!(raw.track.enemy_lanes.len(), 1);
    let sec = &raw.track.enemy_lanes[0];
    assert_eq!(sec.points.len(), 3);
    assert_eq!(sec.points[2].x_position, 3);
}

#[test]
fn unused_btp_command_is_rejected_at_parse_level() {
    let err = raw_of("BTP\n").expect_err("the unused command has no accumulator");
    assert_eq!(err, ParseError::SyntaxError("unexpected command token".to_string()));
}
