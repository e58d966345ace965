//! Tests of semantic resolution: reference integrity, hold interpolation,
//! index ordering and the resolved model.

use ogkr::lex::command::{CommandTime, WallPoint};
use ogkr::lex::tokenize;
use ogkr::parse::analysis::{parse_raw_ogkr, parse_raw_ogkr_checked, Lane, LaneType, Ogkr, TimingPoint};
use ogkr::parse::raw::{parse_tokens, WallSection};
use ogkr::parse::ParseError;

fn resolve(source: &str) -> Result<Ogkr, ParseError> {
    parse_raw_ogkr(parse_tokens(tokenize(source).expect("must tokenize")).expect("must parse"))
}

// A minimal wall pair so the aggregate metadata has something to measure.
const WALLS: &str = "WLS 90 0 0 -5\nWLE 90 8 0 -5\nWRS 91 0 0 5\nWRE 91 9 0 5\n";

#[test]
fn tap_with_undeclared_lane_fails_resolution() {
    // Tokenization and raw parsing both succeed; resolution must reject the
    // dangling lane reference.
    let source = "BPM_DEF 500000000 500000000 500000000 500000000\nTAP 1 0 0 0 0\n";
    let ts = tokenize(source).expect("must be tokenized");
    let raw = parse_tokens(ts).expect("must be parsed");
    let err = parse_raw_ogkr(raw).expect_err("resolution must fail");
    assert_eq!(
        err,
        ParseError::SemanticError("Tap note uses invalid lane id 1".to_string())
    );
}

#[test]
fn wall_pair_resolves_into_two_point_lane() {
    let ogkr = resolve("WLS 1 0 0 0\nWLE 1 1 0 0\nWRS 2 0 0 5\nWRE 2 1 0 5\n").expect("must resolve");
    let lane = ogkr.track.get_lane(ogkr::parse::analysis::LaneId(1)).expect("wall lane exists");
    assert_eq!(lane.lane_type, LaneType::WallLeft);
    assert_eq!(lane.points.len(), 2);
    assert!(lane.points[0].time.le(&lane.points[1].time));
    assert_eq!(lane.points[0].time, TimingPoint { measure: 0, beat_offset: 0 });
    assert_eq!(lane.points[1].time, TimingPoint { measure: 1, beat_offset: 0 });
}

#[test]
fn hold_with_exactly_matching_times_takes_the_lane_points() {
    // Lane points at measures 0..=3; the hold spans measures 1..=2 exactly,
    // so its path is exactly those two lane points.
    let source = [
        WALLS,
        "LLS 5 0 0 10\nLLN 5 1 0 11\nLLN 5 2 0 12\nLLE 5 3 0 13\n",
        "HLD 5 1 0 11 0 2 0 12 0\n",
    ]
    .concat();
    let ogkr = resolve(&source).expect("must resolve");
    let holds = ogkr.notes.all_holds();
    assert_eq!(holds.len(), 1);
    let h = &holds[0];
    assert_eq!(h.points.len(), 2);
    assert_eq!(h.points[0].time, TimingPoint { measure: 1, beat_offset: 0 });
    assert_eq!(h.points[0].x.position, 11);
    assert_eq!(h.points[1].time, TimingPoint { measure: 2, beat_offset: 0 });
    assert_eq!(h.points[1].x.position, 12);
    assert_ne!(h.points[0], h.points[1]);
}

#[test]
fn hold_between_lane_points_synthesizes_endpoints() {
    // The hold's times fall between lane points, so the synthetic start and
    // end are spliced around the included lane range.
    let source = [
        WALLS,
        "LLS 5 0 0 10\nLLN 5 2 0 12\nLLE 5 4 0 14\n",
        "HLD 5 1 0 11 0 3 0 13 0\n",
    ]
    .concat();
    let ogkr = resolve(&source).expect("must resolve");
    let holds = ogkr.notes.all_holds();
    assert_eq!(holds.len(), 1);
    let h = &holds[0];
    // Path: synthetic start, lane points at measures 2, synthetic end.
    assert_eq!(h.points.len(), 3);
    assert_eq!(h.points[0], h.start);
    assert_eq!(h.points[1].time, TimingPoint { measure: 2, beat_offset: 0 });
    assert_eq!(h.points[2], h.end);
    assert_ne!(h.points[0], h.points[1]);
    assert_ne!(h.points[1], h.points[2]);
}

#[test]
fn hold_outside_lane_range_degrades_to_endpoints() {
    // Start after every lane point: the search range is invalid and the
    // path degrades to just the hold's own endpoints.
    let source = [
        WALLS,
        "LLS 5 0 0 10\nLLE 5 1 0 11\n",
        "HLD 5 2 0 20 0 3 0 30 0\n",
    ]
    .concat();
    let ogkr = resolve(&source).expect("must resolve");
    let holds = ogkr.notes.all_holds();
    assert_eq!(holds.len(), 1);
    let h = &holds[0];
    assert_eq!(h.points.len(), 2);
    assert_eq!(h.points[0], h.start);
    assert_eq!(h.points[1], h.end);
}

#[test]
fn hold_with_undeclared_lane_fails_resolution() {
    let source = [WALLS, "HLD 42 0 0 0 0 1 0 0 0\n"].concat();
    let err = resolve(&source).expect_err("must fail");
    assert_eq!(
        err,
        ParseError::SemanticError("hold note uses invalid lane id 42".to_string())
    );
}

#[test]
fn bullet_with_unknown_palette_fails_resolution() {
    let source = [WALLS, "BPL known UPS 0 PLR 1 N CIR 0\nBLT other 0 0 0\n"].concat();
    let err = resolve(&source).expect_err("must fail");
    assert_eq!(
        err,
        ParseError::SemanticError("Bullet uses invalid palette id other".to_string())
    );
}

#[test]
fn bullet_with_known_palette_resolves() {
    let source = [WALLS, "BPL known ENE 0 FIX 2.5 L SQR 3\nBLT known 1 0 -2\n"].concat();
    let ogkr = resolve(&source).expect("must resolve");
    let bullets = ogkr.bullets.all_bullets();
    assert_eq!(bullets.len(), 1);
    assert_eq!(bullets[0].palette_id.0, "known");
    assert_eq!(bullets[0].position.x.position, -2);
    let palette = ogkr
        .bullets
        .get_bullet_palette(&bullets[0].palette_id)
        .expect("palette is registered");
    assert_eq!(palette.speed, "2.5");
}

#[test]
fn later_palette_with_same_id_wins() {
    let source = [WALLS, "BPL p UPS 0 PLR 1 N CIR 0\nBPL p CEN 0 PLR 2 L NDL 1\n"].concat();
    let ogkr = resolve(&source).expect("must resolve");
    assert_eq!(ogkr.bullets.bullet_palette_list.len(), 1);
    assert_eq!(ogkr.bullets.bullet_palette_list[0].speed, "2");
}

#[test]
fn duplicate_lane_id_keeps_the_first_section() {
    let source = [
        WALLS,
        "LLS 5 0 0 10\nLLE 5 1 0 11\n",
        "LLS 5 2 0 20\nLLE 5 3 0 21\n",
    ]
    .concat();
    let ogkr = resolve(&source).expect("must resolve");
    let lane = ogkr.track.get_lane(ogkr::parse::analysis::LaneId(5)).expect("lane exists");
    assert_eq!(lane.points[0].x.position, 10);
}

#[test]
fn start_end_only_section_resolves() {
    // A section whose Start is immediately its End still holds two points.
    let source = "LRS 3 0 0 0\nLRE 3 0 0 0\nTAP 3 0 0 0 0\n";
    let ogkr = resolve(&[WALLS, source].concat()).expect("two equal points still resolve");
    assert_eq!(ogkr.notes.all_taps().len(), 1);
}

#[test]
fn short_section_is_rejected_with_its_id() {
    let sec = WallSection {
        group_id: 907,
        points: vec![WallPoint {
            group_id: 907,
            time: CommandTime { measure: 0, offset: 0 },
            x_position: 0,
        }],
    };
    let err = Lane::from_wall_section(sec, LaneType::WallLeft).expect_err("one point is too few");
    assert_eq!(
        err,
        ParseError::SemanticError("Lane section requires at least 2 points, id 907".to_string())
    );
}

#[test]
fn indexes_iterate_in_nondecreasing_time_order() {
    let source = [
        WALLS,
        "BPM 4 0 200\nBPM 1 0 100\nBPM 4 0 210\n",
        "MET 2 0 3 4\nMET 0 0 4 4\n",
        "SFL 3 0 960 2.0\nSFL 1 0 960 0.5\n",
        "BEL 5 0 1\nBEL 2 0 1\nBEL 2 0 2\n",
        "FLK 9 0 0 L\nFLK 0 0 0 R\n",
    ]
    .concat();
    let ogkr = resolve(&source).expect("must resolve");
    let bpm_keys: Vec<TimingPoint> = ogkr.composition.bpm_changes.iter().map(|e| e.0).collect();
    assert_eq!(bpm_keys.len(), 2, "equal keys collapse under map semantics");
    assert!(bpm_keys.windows(2).all(|w| w[0].le(&w[1])));
    // The later write at measure 4 wins.
    assert_eq!(ogkr.composition.bpm_changes[1].1.bpm, 210);
    let meter_keys: Vec<TimingPoint> =
        ogkr.composition.meter_changes.iter().map(|e| e.0).collect();
    assert!(meter_keys.windows(2).all(|w| w[0].le(&w[1])));
    let soflan_keys: Vec<TimingPoint> = ogkr.composition.soflans.iter().map(|e| e.0).collect();
    assert!(soflan_keys.windows(2).all(|w| w[0].le(&w[1])));
    let bell_keys: Vec<TimingPoint> = ogkr.notes.bells.iter().map(|e| e.0).collect();
    assert_eq!(bell_keys.len(), 2);
    assert!(bell_keys.windows(2).all(|w| w[0].le(&w[1])));
    assert_eq!(ogkr.notes.bells[0].1.len(), 2, "bells at one key group into a list");
    let flick_keys: Vec<TimingPoint> = ogkr.notes.flicks.iter().map(|e| e.0).collect();
    assert!(flick_keys.windows(2).all(|w| w[0].le(&w[1])));
}

#[test]
fn num_measures_reads_the_largest_wall_start_key() {
    // The wall indexes are keyed by each section's first point, so the
    // measure count is the largest starting measure on either side.
    let ogkr = resolve(WALLS).expect("must resolve");
    assert_eq!(ogkr.extra_metadata.num_measures, 0);
    let more = [WALLS, "WLS 92 7 0 -5
WLE 92 12 0 -5
"].concat();
    let ogkr = resolve(&more).expect("must resolve");
    assert_eq!(ogkr.extra_metadata.num_measures, 7);
}

#[test]
fn plain_and_critical_taps_share_a_timing_key() {
    // Every raw note appears exactly once: at a shared timing key the
    // critical notes join the end of the plain notes' group.
    let source = [
        WALLS,
        "LLS 5 0 0 0\nLLE 5 9 0 0\n",
        "TAP 5 1 0 0 0\nCTP 5 1 0 3 0\nTAP 5 2 0 1 0\n",
    ]
    .concat();
    let ogkr = resolve(&source).expect("must resolve");
    let taps = ogkr.notes.all_taps();
    assert_eq!(taps.len(), 3);
    assert!(!taps[0].is_critical);
    assert_eq!(taps[0].position.x.position, 0);
    assert!(taps[1].is_critical, "the critical tap follows the plain tap at its key");
    assert_eq!(taps[1].position.x.position, 3);
    assert!(!taps[2].is_critical);
    assert_eq!(taps[2].position.x.position, 1);
}

#[test]
fn plain_and_critical_holds_share_a_timing_key() {
    let source = [
        WALLS,
        "LLS 5 0 0 0\nLLE 5 9 0 0\n",
        "HLD 5 1 0 0 0 2 0 0 0\nCHD 5 1 0 3 0 2 0 3 0\n",
    ]
    .concat();
    let ogkr = resolve(&source).expect("must resolve");
    let holds = ogkr.notes.all_holds();
    assert_eq!(holds.len(), 2);
    assert!(!holds[0].is_critical);
    assert!(holds[1].is_critical);
}

#[test]
fn checked_resolution_matches_the_plain_entry_on_safe_charts() {
    let source = [WALLS, "LLS 5 0 0 0\nLLE 5 9 0 0\nTAP 5 1 0 0 0\n"].concat();
    let raw = parse_tokens(tokenize(&source).expect("must tokenize")).expect("must parse");
    let ogkr = parse_raw_ogkr_checked(raw).expect("must resolve");
    assert_eq!(ogkr.notes.all_taps().len(), 1);
}

#[test]
fn checked_resolution_rejects_a_degenerate_hold_splice() {
    // A hold whose start and end both match the same lane point exactly
    // would splice a single-point path; the checked entry point turns the
    // guard into a semantic error.
    let source = [
        WALLS,
        "LLS 5 0 0 0\nLLE 5 9 0 0\n",
        "HLD 5 0 0 0 0 0 0 0 0\n",
    ]
    .concat();
    let raw = parse_tokens(tokenize(&source).expect("must tokenize")).expect("must parse");
    let err = parse_raw_ogkr_checked(raw).expect_err("degenerate splice must be rejected");
    assert_eq!(
        err,
        ParseError::SemanticError("hold note cannot be interpolated against its lane".to_string())
    );
}

#[test]
fn checked_resolution_rejects_a_chart_without_walls() {
    let source = "LLS 5 0 0 0\nLLE 5 9 0 0\nTAP 5 1 0 0 0\n";
    let raw = parse_tokens(tokenize(source).expect("must tokenize")).expect("must parse");
    let err = parse_raw_ogkr_checked(raw).expect_err("the measure count needs walls");
    assert_eq!(
        err,
        ParseError::SemanticError("wall lanes are required for the measure count".to_string())
    );
}

#[test]
fn soflan_and_damage_values_keep_literal_texts() {
    let source = [WALLS, "SFL 0 0 960 1.5\nBULLET_DAMAGE 2.0\nBEAM_DAMAGE 0.5\n"].concat();
    let ts = tokenize(&source).expect("must tokenize");
    let raw = parse_tokens(ts).expect("must parse");
    assert_eq!(raw.header.damage_values.normal, "2.0");
    assert_eq!(raw.header.damage_values.beam, "0.5");
    let ogkr = parse_raw_ogkr(raw).expect("must resolve");
    assert_eq!(ogkr.composition.soflans[0].1.speed_multiplier, "1.5");
    assert_eq!(ogkr.composition.soflans[0].1.duration, 960);
}
