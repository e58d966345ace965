//! Lexical analysis: turns chart source text into a stream of command tokens.

pub mod chars;
pub mod command;
pub mod cursor;
pub mod number;
pub mod token;

use vstd::prelude::*;

use crate::lex::cursor::{st_is_end, Cursor, LexSt};
use crate::lex::token::{token_views, Token, TokenStream, TokenV};

verus! {

/// Error raised while tokenizing chart content.
///
/// Both variants carry the 1-based line and column of the place in the source
/// text where lexing stopped.
#[derive(Clone, Copy, PartialEq, Eq, Debug, Hash)]
pub enum LexError {
    /// The command keyword that starts a line is not part of the chart grammar.
    UnknownCommand {
        /// Line number inside the chart file.
        line: usize,
        /// Column number inside the chart file.
        col: usize,
    },
    /// A command argument is missing or failed to convert to its target type.
    ExpectedToken {
        /// Line number inside the chart file.
        line: usize,
        /// Column number inside the chart file.
        col: usize,
        /// Message containing expected token details.
        message: &'static str,
    },
}

/// Spec-level mirror of [`LexError`], with the message as a character
/// sequence.
pub ghost enum LexErrV {
    UnknownCommand { line: int, col: int },
    ExpectedToken { line: int, col: int, message: Seq<char> },
}

impl View for LexError {
    type V = LexErrV;

    open spec fn view(&self) -> LexErrV {
        match self {
            LexError::UnknownCommand { line, col } => LexErrV::UnknownCommand {
                line: *line as int,
                col: *col as int,
            },
            LexError::ExpectedToken { line, col, message } => LexErrV::ExpectedToken {
                line: *line as int,
                col: *col as int,
                message: message@,
            },
        }
    }
}

/// Lifts a lexing result to its spec-level mirror.
pub open spec fn rv<T: View>(r: Result<T, LexError>) -> Result<T::V, LexErrV> {
    match r {
        Ok(t) => Ok(t@),
        Err(e) => Err(e@),
    }
}

/// The `ExpectedToken` error raised at the position a state describes.
pub open spec fn expected_err(st: LexSt, message: Seq<char>) -> LexErrV {
    LexErrV::ExpectedToken { line: st.line as usize as int, col: st.col as usize as int, message }
}

/// The cursor state at which tokenization of `source` begins.
pub open spec fn initial_st(source: Seq<char>) -> LexSt {
    LexSt { s: source, pos: 0, line: 1, col: 1, tok_start: 0 }
}

/// Tokenization decodes `toks` one after another, carrying the cursor state
/// from `st` to `st2`.
pub open spec fn st_lex_steps(st: LexSt, toks: Seq<TokenV>, st2: LexSt) -> bool
    decreases toks.len(),
{
    if toks.len() == 0 {
        st2 == st
    } else {
        let (r, stm) = Token::st_decode(st);
        &&& !st_is_end(st)
        &&& r == Ok::<TokenV, LexErrV>(toks[0])
        &&& st_lex_steps(stm, toks.skip(1), st2)
    }
}

/// Tokenization of the whole input from `st` succeeds with exactly `toks`.
pub open spec fn lexes_to(st: LexSt, toks: Seq<TokenV>, st2: LexSt) -> bool {
    st_lex_steps(st, toks, st2) && st_is_end(st2)
}

/// Tokenization from `st` decodes `toks`, then fails at `st2` with error `e`.
pub open spec fn lexes_to_err(st: LexSt, toks: Seq<TokenV>, st2: LexSt, e: LexErrV) -> bool {
    st_lex_steps(st, toks, st2) && !st_is_end(st2) && Token::st_decode(st2).0 == Err::<
        TokenV,
        LexErrV,
    >(e)
}

/// Extends a decoding chain by one more token at its end.
proof fn lemma_lex_steps_snoc(st0: LexSt, toks: Seq<TokenV>, st1: LexSt, t: TokenV, st2: LexSt)
    requires
        st_lex_steps(st0, toks, st1),
        !st_is_end(st1),
        Token::st_decode(st1).0 == Ok::<TokenV, LexErrV>(t),
        Token::st_decode(st1).1 == st2,
    ensures
        st_lex_steps(st0, toks.push(t), st2),
    decreases toks.len(),
{
    if toks.len() == 0 {
        assert(toks.push(t)[0] == t);
        assert(toks.push(t).skip(1) =~= Seq::<TokenV>::empty());
        assert(st_lex_steps(Token::st_decode(st1).1, Seq::<TokenV>::empty(), st2));
    } else {
        lemma_lex_steps_snoc(Token::st_decode(st0).1, toks.skip(1), st1, t, st2);
        assert(toks.push(t)[0] == toks[0]);
        assert(toks.push(t).skip(1) =~= toks.skip(1).push(t));
    }
}

/// A decoding chain is deterministic: from one starting state only one token
/// sequence reaches the end of the input.
pub proof fn lemma_lex_deterministic(
    st: LexSt,
    a: Seq<TokenV>,
    sta: LexSt,
    b: Seq<TokenV>,
    stb: LexSt,
)
    requires
        lexes_to(st, a, sta),
        lexes_to(st, b, stb),
    ensures
        a == b,
        sta == stb,
    decreases a.len(),
{
    if a.len() == 0 {
        assert(b.len() == 0);
    } else {
        assert(b.len() > 0);
        lemma_lex_deterministic(Token::st_decode(st).1, a.skip(1), sta, b.skip(1), stb);
        assert(a =~= seq![a[0]] + a.skip(1));
        assert(b =~= seq![b[0]] + b.skip(1));
    }
}

/// Tokenization of the whole input from `st` succeeds with exactly `toks`.
pub open spec fn lexes_complete(st: LexSt, toks: Seq<TokenV>) -> bool {
    exists|s2: LexSt| lexes_to(st, toks, s2)
}

/// Tokenization from `st` decodes `toks` and then fails with error `e`.
pub open spec fn lex_fails(st: LexSt, e: LexErrV) -> bool {
    exists|toks: Seq<TokenV>, s2: LexSt| lexes_to_err(st, toks, s2, e)
}

proof fn lemma_lexes_to_exists(st: LexSt, toks: Seq<TokenV>, st2: LexSt)
    requires
        lexes_to(st, toks, st2),
    ensures
        lexes_complete(st, toks),
{
    assert(exists|s2: LexSt| lexes_to(st, toks, s2)) by {
        assert(lexes_to(st, toks, st2));
    }
}

proof fn lemma_lexes_err_exists(st: LexSt, toks: Seq<TokenV>, st2: LexSt, e: LexErrV)
    requires
        lexes_to_err(st, toks, st2, e),
    ensures
        lex_fails(st, e),
{
    assert(exists|ts2: Seq<TokenV>, s2: LexSt| lexes_to_err(st, ts2, s2, e)) by {
        assert(lexes_to_err(st, toks, st2, e));
    }
}

/// Tokenizes chart content.
///
/// On success the returned stream is the unique token sequence that the
/// grammar derives from `source` (see [`lexes_to`] and
/// [`lemma_lex_deterministic`]); on failure the error is the one raised at
/// the first command that does not decode.
#[verifier::rlimit(100)]
pub fn tokenize(source: &str) -> (r: Result<TokenStream, LexError>)
    requires
        source@.len() < usize::MAX,
    ensures
        match r {
            Ok(ts) => lexes_complete(initial_st(source@), ts@),
            Err(e) => lex_fails(initial_st(source@), e@),
        },
{
    let mut cursor = Cursor::new(source);
    let ghost st0 = cursor.st();
    let mut tokens: Vec<Token> = Vec::new();
    let mut done = cursor.is_end();
    while !done
        invariant
            cursor.wf(),
            cursor.st().s == source@,
            st0 == initial_st(source@),
            done == st_is_end(cursor.st()),
            st_lex_steps(st0, token_views(tokens@), cursor.st()),
        decreases source@.len() - cursor.st().pos,
    {
        let ghost prev = cursor.st();
        let ghost consumed = token_views(tokens@);
        match Token::from_cursor(&mut cursor) {
            Ok(t) => {
                proof {
                    lemma_lex_steps_snoc(st0, consumed, prev, t@, cursor.st());
                    assert(token_views(tokens@.push(t)) =~= consumed.push(t@));
                }
                tokens.push(t);
            },
            Err(e) => {
                proof {
                    lemma_lexes_err_exists(st0, consumed, prev, e@);
                }
                return Err(e);
            },
        }
        done = cursor.is_end();
    }
    let ghost toks_v = token_views(tokens@);
    let ghost final_st = cursor.st();
    proof {
        assert(lexes_to(st0, toks_v, final_st));
    }
    let ts = TokenStream::from_tokens(tokens);
    proof {
        assert(ts@ == toks_v);
        lemma_lexes_to_exists(initial_st(source@), ts@, final_st);
    }
    Ok(ts)
}

} // verus!
