//! Whole-pipeline tests: representative chart files run through all three
//! stages.

use ogkr::lex::tokenize;
use ogkr::parse::analysis::parse_raw_ogkr;
use ogkr::parse::raw::parse_tokens;

fn test_file(source: &str) {
    let tokens = tokenize(source).expect("must be tokenized");
    let raw_ogkr = parse_tokens(tokens).expect("must be parsed");
    let _ogkr = parse_raw_ogkr(raw_ogkr).expect("must be parsed");
}

#[test]
fn test_1() {
    test_file(
        "[HEADER]\nVERSION 1 7 0\nCREATOR someone\nBPM_DEF 120 120 120 120\nMET_DEF 4 4\nTRESOLUTION 1920\nXRESOLUTION 4096\nCLK_DEF 30\nPROGJUDGE_BPM 240\nTUTORIAL 0\n[B_PALETTE]\nBPL p0 UPS 0 PLR 1.2 N CIR 0\n[COMPOSITION]\nBPM 0 0 120\nMET 0 0 4 4\nCLK 0 0\n[WALL]\nWLS 1 0 0 -6\nWLN 1 2 0 -6\nWLE 1 8 0 -6\nWRS 2 0 0 6\nWRE 2 8 0 6\n[LANE]\nLLS 3 0 0 -3\nLLE 3 8 0 -3\nLCS 4 0 0 0\nLCE 4 8 0 0\nLRS 5 0 0 3\nLRE 5 8 0 3\n[NOTES]\nTAP 4 1 0 0 0\nHLD 4 2 0 0 0 3 0 0 0\nBEL 1 480 2\nFLK 2 0 1 L\nBLT p0 3 0 0\n",
    );
}

#[test]
fn test_2() {
    test_file(
        "VERSION 1 0 0\nBPM_DEF 500000000 500000000 500000000 500000000\nWLS 1 0 0 0\nWLE 1 4 0 0\nWRS 2 0 0 0\nWRE 2 4 0 0\nENS 6 0 0 0\nENN 6 1 0 1\nENE 6 2 0 2\nEST 0 0 WAVE1\nEST 2 0 BOSS\nCLS 7 0 0 0 3 200\nCLN 7 1 0 1 3 210\nCLE 7 2 0 2 3 220\nTAP 6 1 0 1 0\n",
    );
}

#[test]
fn test_3() {
    test_file(
        "T_TOTAL 3\nT_TAP 3\nBULLET_DAMAGE 1.0\nHARDBULLET_DAMAGE 2.0\nDANGERBULLET_DAMAGE 5.0\nBEAM_DAMAGE 0.25\nWLS 1 0 0 0\nWLE 1 12 0 0\nWRS 2 0 0 0\nWRE 2 12 0 0\nBMS 9 0 0 0 2\nBMN 9 2 0 1 2\nBME 9 4 0 2 2\nOBS 10 0 0 0 2 1\nOBE 10 4 0 2 2 1\nLDP 1 0 0 0 0 1 0 0 0\nLBK 1 2 0 0 0 3 0 0 0\nSFL 1 0 1920 0.5\nCTP 1 1 0 0 0\nCHD 1 2 0 0 0 3 0 0 0\nCFK 2 0 0 R\n",
    );
}
