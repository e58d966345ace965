//! Tests of the tokenizer: one token per command, exact payloads, and the
//! lexical error positions.

use ogkr::lex::command::{BulletDamageType, BulletShooter, BulletSize, BulletTarget, BulletType};
use ogkr::lex::token::Token;
use ogkr::lex::{tokenize, LexError};

#[test]
fn tokenize_grammar_file_yields_one_token_per_line() {
    // A file built purely from the recognized command grammar: one token per
    // non-blank line, section headers included as no-op markers.
    let source = "[HEADER]\nVERSION 1 7 0\nTRESOLUTION 1920\nXRESOLUTION 4096\n\nBPM 0 0 120\nTAP 1 0 0 0 0\n";
    let ts = tokenize(source).expect("grammar file must tokenize");
    assert_eq!(ts.len(), 6);
    assert!(matches!(ts.get(0), Token::SectionName));
    assert!(matches!(ts.get(1), Token::Version(v) if v.major == 1 && v.minor == 7 && v.release == 0));
    assert!(matches!(ts.get(2), Token::TickResolution(t) if t.resolution == 1920));
    assert!(matches!(ts.get(3), Token::XResolution(x) if x.resolution == 4096));
    assert!(matches!(ts.get(4), Token::BpmChange(b) if b.time.measure == 0 && b.time.offset == 0 && b.bpm == 120));
    assert!(matches!(ts.get(5), Token::Tap(t) if t.lane_group_id == 1 && t.x_position == 0));
}

#[test]
fn unknown_command_reports_line_and_col() {
    let source = "VERSION 1 7 0\nNOPE 1 2 3\n";
    let err = tokenize(source).expect_err("unknown keyword must fail");
    assert_eq!(err, LexError::UnknownCommand { line: 2, col: 5 });
}

#[test]
fn missing_argument_reports_expected_token() {
    let source = "VERSION 1 7\n";
    let err = tokenize(source).expect_err("missing release must fail");
    assert!(matches!(
        err,
        LexError::ExpectedToken { message: "Version release", .. }
    ));
}

#[test]
fn non_numeric_argument_reports_expected_token() {
    let source = "TRESOLUTION lots\n";
    let err = tokenize(source).expect_err("non-numeric resolution must fail");
    assert!(matches!(
        err,
        LexError::ExpectedToken { message: "TickResolution resolution", .. }
    ));
}

#[test]
fn integer_overflow_is_rejected() {
    let err = tokenize("TRESOLUTION 4294967296\n").expect_err("over u32::MAX must fail");
    assert!(matches!(err, LexError::ExpectedToken { .. }));
    let ts = tokenize("TRESOLUTION 4294967295\n").expect("u32::MAX fits");
    assert!(matches!(ts.get(0), Token::TickResolution(t) if t.resolution == u32::MAX));
}

#[test]
fn signed_positions_parse() {
    let ts = tokenize("TAP 1 0 0 -12 +3\n").expect("signed x must parse");
    assert!(matches!(ts.get(0), Token::Tap(t) if t.x_position == -12 && t.x_offset == 3));
}

#[test]
fn creator_takes_rest_of_line() {
    let ts = tokenize("CREATOR  A Chart  Author \nTRESOLUTION 1\n").expect("must tokenize");
    assert_eq!(ts.len(), 2);
    match ts.get(0) {
        Token::Creator(c) => assert_eq!(c.name, "A Chart  Author"),
        other => panic!("expected a creator token, got {:?}", other),
    }
}

#[test]
fn bpm_definition_keeps_float_literal_text() {
    let ts = tokenize("BPM_DEF 120.5 120.5 60 240e0\n").expect("must tokenize");
    match ts.get(0) {
        Token::BpmDefinition(b) => {
            assert_eq!(b.first, "120.5");
            assert_eq!(b.maximum, "240e0");
            assert_eq!(b.first.parse::<f32>().unwrap(), 120.5f32);
        },
        other => panic!("expected a bpm definition, got {:?}", other),
    }
}

#[test]
fn malformed_float_is_rejected() {
    let err = tokenize("BPM_DEF 120..5 1 1 1\n").expect_err("double dot must fail");
    assert!(matches!(err, LexError::ExpectedToken { message: "Bpm first", .. }));
    let err = tokenize("BULLET_DAMAGE 1e\n").expect_err("empty exponent must fail");
    assert!(matches!(err, LexError::ExpectedToken { .. }));
    tokenize("BULLET_DAMAGE .5\n").expect("leading dot is a valid float");
    tokenize("BULLET_DAMAGE inf\n").expect("inf is a valid float");
    tokenize("BULLET_DAMAGE NaN\n").expect("NaN is a valid float");
}

#[test]
fn bullet_palette_new_format() {
    let ts = tokenize("BPL shot1 UPS 3 PLR 1.5 N CIR 0\n").expect("must tokenize");
    match ts.get(0) {
        Token::BulletPalette(p) => {
            assert_eq!(p.id, "shot1");
            assert_eq!(p.shooter, BulletShooter::EndPosition);
            assert_eq!(p.target_x_offset, 3);
            assert_eq!(p.target, BulletTarget::Player);
            assert_eq!(p.speed, "1.5");
            assert_eq!(p.size, Some(BulletSize::Normal));
            assert_eq!(p.ty, Some(BulletType::Circle));
            assert_eq!(p.random_position_offset, Some(0));
            assert_eq!(p.damage_type, None);
        },
        other => panic!("expected a bullet palette, got {:?}", other),
    }
}

#[test]
fn bullet_palette_old_format_lookahead() {
    // The older format carries a damage-type tag where the newer one starts
    // its size/type/random-offset tail; the peeked token decides.
    let ts = tokenize("BPL shot2 ENE -1 FIX 2 STR\n").expect("must tokenize");
    match ts.get(0) {
        Token::BulletPalette(p) => {
            assert_eq!(p.shooter, BulletShooter::Enemy);
            assert_eq!(p.target, BulletTarget::FixedPosition);
            assert_eq!(p.size, None);
            assert_eq!(p.ty, None);
            assert_eq!(p.random_position_offset, None);
            assert_eq!(p.damage_type, Some(BulletDamageType::Hard));
        },
        other => panic!("expected a bullet palette, got {:?}", other),
    }
}

#[test]
fn bell_palette_id_is_optional() {
    let ts = tokenize("BEL 0 0 5 pal\nBEL 0 0 6\n").expect("must tokenize");
    match ts.get(0) {
        Token::Bell(b) => assert_eq!(b.bullet_palette_id.as_deref(), Some("pal")),
        other => panic!("expected a bell, got {:?}", other),
    }
    match ts.get(1) {
        Token::Bell(b) => assert_eq!(b.bullet_palette_id, None),
        other => panic!("expected a bell, got {:?}", other),
    }
}

#[test]
fn critical_note_keywords() {
    let ts = tokenize("CTP 1 0 0 0 0\nXTP 1 0 0 0 0\nCHD 1 0 0 0 0 1 0 0 0\nCFK 0 0 0 L\n")
        .expect("must tokenize");
    assert!(matches!(ts.get(0), Token::CriticalTap(_)));
    assert!(matches!(ts.get(1), Token::CriticalTap(_)));
    assert!(matches!(ts.get(2), Token::CriticalHold(_)));
    assert!(matches!(ts.get(3), Token::CriticalFlick(_)));
}

#[test]
fn empty_input_yields_no_tokens() {
    let ts = tokenize("  \n\t \n").expect("blank input must tokenize");
    assert_eq!(ts.len(), 0);
}
