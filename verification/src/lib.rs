//! Parser for the OGKR rhythm-game chart format.
//!
//! The pipeline has three stages: lexical tokenization of the line-oriented
//! command text (`lex`), grammar-level raw parsing that stitches multi-line
//! sections together (`parse::raw`), and semantic resolution into a
//! cross-referenced, time-indexed model (`parse::analysis`).

pub mod lex;
pub mod parse;
