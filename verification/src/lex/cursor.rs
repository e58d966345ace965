//! Scanning cursor over the chart source text.
//!
//! The cursor yields whitespace-delimited tokens and tracks a 1-based line
//! and column. Its abstract state is [`LexSt`]; every operation is specified
//! as a pure transition function on that state, so the decoders built on top
//! of the cursor can be given exact contracts.

use crate::lex::chars::{
    count_nl, is_sep, is_sep_char, lemma_count_nl_nonneg, lemma_count_nl_split,
    lemma_count_nl_zero, lemma_line_end, lemma_skip_seps, lemma_token_end, line_end, line_start,
    skip_seps, token_end,
};
use crate::lex::LexError;
use vstd::prelude::*;

verus! {

/// Abstract state of a [`Cursor`]: the source text as a character sequence,
/// the scan position, the 1-based line and column, and the start position of
/// the most recently consumed token.
pub ghost struct LexSt {
    pub s: Seq<char>,
    pub pos: int,
    pub line: int,
    pub col: int,
    pub tok_start: int,
}

impl LexSt {
    /// Well-formedness: the position is inside the text, the line number
    /// counts the newlines consumed so far, and the column is bounded by the
    /// position. The length bound keeps the line/column arithmetic free of
    /// overflow.
    pub open spec fn wf(self) -> bool {
        &&& 0 <= self.pos <= self.s.len()
        &&& self.s.len() < usize::MAX
        &&& self.line == 1 + count_nl(self.s.subrange(0, self.pos))
        &&& 1 <= self.col <= 1 + self.pos
        &&& 0 <= self.tok_start <= self.pos
    }
}

/// The token produced by one `next_token` call, if any, and the state after
/// the call. When only separators remain the state is unchanged.
pub open spec fn st_next_token(st: LexSt) -> (Option<Seq<char>>, LexSt) {
    let start = skip_seps(st.s, st.pos);
    let end = token_end(st.s, start);
    if start == st.s.len() {
        (None, st)
    } else {
        let nl = count_nl(st.s.subrange(st.pos, end));
        (
            Some(st.s.subrange(start, end)),
            LexSt {
                pos: end,
                line: st.line + nl,
                col: if nl == 0 {
                    st.col + (end - st.pos)
                } else {
                    1 + (end - line_start(st.s, end))
                },
                tok_start: start,
                ..st
            },
        )
    }
}

/// The token `peek_token` reports without consuming it.
pub open spec fn st_peek(st: LexSt) -> Option<Seq<char>> {
    st_next_token(st).0
}

/// Whether the cursor is at end of input: only separators remain.
pub open spec fn st_is_end(st: LexSt) -> bool {
    skip_seps(st.s, st.pos) == st.s.len()
}

/// Index one past the last non-separator character of `t`, or 0 when `t`
/// holds only separators.
pub open spec fn rstrip_end(t: Seq<char>) -> int
    decreases t.len(),
{
    if t.len() == 0 {
        0
    } else if is_sep_char(t.last()) {
        rstrip_end(t.drop_last())
    } else {
        t.len() as int
    }
}

/// `t` with leading and trailing separators removed.
pub open spec fn trim_seq(t: Seq<char>) -> Seq<char> {
    if skip_seps(t, 0) == t.len() {
        Seq::<char>::empty()
    } else {
        t.subrange(skip_seps(t, 0), rstrip_end(t))
    }
}

/// The exclusive end of the text `current_remaining_line` reports: the rest
/// of the current line, with a final `\r` dropped when the line ends in
/// `\r\n`.
pub open spec fn st_line_cut(st: LexSt) -> int {
    let j = line_end(st.s, st.pos);
    if j < st.s.len() && st.pos < j && st.s[j - 1] == '\r' {
        j - 1
    } else {
        j
    }
}

/// The input on which `current_remaining_line` would panic in its slice
/// arithmetic: the cursor sits directly on a `\n` preceded by `\r`.
pub open spec fn st_remaining_line_ok(st: LexSt) -> bool {
    !(line_end(st.s, st.pos) == st.pos && st.pos < st.s.len() && st.pos > 0 && st.s[st.pos - 1]
        == '\r')
}

/// The trimmed rest-of-line text `current_remaining_line` returns, and the
/// state after the call. The cursor stops on the `\n` itself (it is consumed
/// later as a separator).
pub open spec fn st_remaining_line(st: LexSt) -> (Seq<char>, LexSt) {
    let j = line_end(st.s, st.pos);
    let cut = st_line_cut(st);
    (
        trim_seq(st.s.subrange(st.pos, cut)),
        LexSt { pos: j, col: st.col + (cut - st.pos), tok_start: st.pos, ..st },
    )
}

/// Right after a token has been consumed the cursor stands behind a
/// non-separator character, so reading the rest of the line is safe.
pub proof fn lemma_token_then_line_ok(st: LexSt)
    requires
        st.wf(),
        st_next_token(st).0 is Some,
    ensures
        st_remaining_line_ok(st_next_token(st).1),
        st_next_token(st).1.wf(),
{
    let start = skip_seps(st.s, st.pos);
    lemma_skip_seps(st.s, st.pos);
    lemma_token_end(st.s, start);
    let end = token_end(st.s, start);
    assert(end == token_end(st.s, start + 1));
    lemma_token_end(st.s, start + 1);
    assert(!is_sep_char(st.s[end - 1]));
    let st2 = st_next_token(st).1;
    assert(st2.pos == end);
    assert(st.s[end - 1] != '\r');
    lemma_st_next_token_wf(st);
}

/// `st_next_token` preserves well-formedness of the state.
pub proof fn lemma_st_next_token_wf(st: LexSt)
    requires
        st.wf(),
    ensures
        st_next_token(st).1.wf(),
{
    let start = skip_seps(st.s, st.pos);
    lemma_skip_seps(st.s, st.pos);
    let end = token_end(st.s, start);
    lemma_token_end(st.s, start);
    if start < st.s.len() {
        let nl = count_nl(st.s.subrange(st.pos, end));
        lemma_count_nl_split(st.s, 0, st.pos, end);
        lemma_count_nl_nonneg(st.s.subrange(st.pos, end));
        if nl > 0 {
            lemma_line_start_bounds(st.s, end);
        }
    }
}

proof fn lemma_rstrip_end(t: Seq<char>)
    ensures
        0 <= rstrip_end(t) <= t.len(),
        forall|j: int| rstrip_end(t) <= j < t.len() ==> is_sep_char(#[trigger] t[j]),
        rstrip_end(t) > 0 ==> !is_sep_char(t[rstrip_end(t) - 1]),
    decreases t.len(),
{
    if t.len() > 0 && is_sep_char(t.last()) {
        lemma_rstrip_end(t.drop_last());
        assert forall|j: int| rstrip_end(t) <= j < t.len() implies is_sep_char(#[trigger] t[j]) by {
            if j < t.len() - 1 {
                assert(t.drop_last()[j] == t[j]);
            }
        }
    }
}

/// After the last `\n` of `s.subrange(0, end)` the line start is right
/// behind that `\n`.
proof fn lemma_line_start_after(s: Seq<char>, k: int, end: int)
    requires
        0 <= k < end <= s.len(),
        s[k] == '\n',
        forall|j: int| k < j < end ==> #[trigger] s[j] != '\n',
    ensures
        line_start(s, end) == k + 1,
    decreases end - k,
{
    if end == k + 1 {
    } else {
        lemma_line_start_after(s, k, end - 1);
    }
}

proof fn lemma_line_start_bounds(s: Seq<char>, pos: int)
    requires
        0 <= pos,
    ensures
        0 <= line_start(s, pos) <= pos,
    decreases pos,
{
    if pos > 0 && s[pos - 1] != '\n' {
        lemma_line_start_bounds(s, pos - 1);
    }
}

/// Advances over separator characters; returns `skip_seps(s@, i)`.
fn skip_seps_exec(s: &str, i: usize) -> (r: usize)
    requires
        i <= s@.len(),
    ensures
        r == skip_seps(s@, i as int),
{
    let len = s.unicode_len();
    let mut j = i;
    while j < len && is_sep(s.get_char(j))
        invariant
            i <= j <= len,
            len == s@.len(),
            skip_seps(s@, i as int) == skip_seps(s@, j as int),
        decreases len - j,
    {
        assert(skip_seps(s@, j as int) == skip_seps(s@, j + 1));
        j = j + 1;
    }
    proof {
        if j < len {
            assert(skip_seps(s@, j as int) == j);
        }
    }
    j
}

/// Advances over non-separator characters; returns `token_end(s@, i)`.
fn token_end_exec(s: &str, i: usize) -> (r: usize)
    requires
        i <= s@.len(),
    ensures
        r == token_end(s@, i as int),
{
    let len = s.unicode_len();
    let mut j = i;
    while j < len && !is_sep(s.get_char(j))
        invariant
            i <= j <= len,
            len == s@.len(),
            token_end(s@, i as int) == token_end(s@, j as int),
        decreases len - j,
    {
        assert(token_end(s@, j as int) == token_end(s@, j + 1));
        j = j + 1;
    }
    proof {
        if j < len {
            assert(token_end(s@, j as int) == j);
        }
    }
    j
}

/// Advances to the next `\n`; returns `line_end(s@, i)`.
fn line_end_exec(s: &str, i: usize) -> (r: usize)
    requires
        i <= s@.len(),
    ensures
        r == line_end(s@, i as int),
{
    let len = s.unicode_len();
    let mut j = i;
    while j < len && s.get_char(j) != '\n'
        invariant
            i <= j <= len,
            len == s@.len(),
            line_end(s@, i as int) == line_end(s@, j as int),
        decreases len - j,
    {
        assert(line_end(s@, j as int) == line_end(s@, j + 1));
        j = j + 1;
    }
    proof {
        if j < len {
            assert(line_end(s@, j as int) == j);
        }
    }
    j
}

pub struct Cursor<'a> {
    line: usize,
    col: usize,
    /// Position of current cursor, or the current token's end position,
    /// counted in characters.
    current_index: usize,
    /// Position of current token's start position, behind `current_index`.
    current_token_start: usize,
    source: &'a str,
}

impl<'a> Cursor<'a> {
    /// The abstract state of this cursor.
    pub closed spec fn st(&self) -> LexSt {
        LexSt {
            s: self.source@,
            pos: self.current_index as int,
            line: self.line as int,
            col: self.col as int,
            tok_start: self.current_token_start as int,
        }
    }

    pub open spec fn wf(&self) -> bool {
        self.st().wf()
    }

    pub fn new(source: &'a str) -> (c: Self)
        requires
            source@.len() < usize::MAX,
        ensures
            c.wf(),
            c.st() == (LexSt { s: source@, pos: 0, line: 1, col: 1, tok_start: 0 }),
    {
        proof {
            assert(source@.subrange(0, 0) =~= Seq::<char>::empty());
        }
        Self { line: 1, col: 1, current_index: 0, current_token_start: 0, source }
    }

    pub fn is_end(&self) -> (r: bool)
        requires
            self.wf(),
        ensures
            r == st_is_end(self.st()),
    {
        self.peek_token().is_none()
    }

    /// Returns the next token without consuming it.
    pub fn peek_token(&self) -> (r: Option<&'a str>)
        requires
            self.wf(),
        ensures
            match (r, st_peek(self.st())) {
                (Some(t), Some(tv)) => t@ == tv,
                (None, None) => true,
                _ => false,
            },
    {
        let len = self.source.unicode_len();
        let start = skip_seps_exec(self.source, self.current_index);
        proof {
            lemma_skip_seps(self.source@, self.current_index as int);
        }
        if start == len {
            return None;
        }
        let end = token_end_exec(self.source, start);
        proof {
            lemma_token_end(self.source@, start as int);
        }
        Some(self.source.substring_char(start, end))
    }

    /// Gets token and advances the cursor.
    pub fn next_token(&mut self) -> (r: Option<&'a str>)
        requires
            old(self).wf(),
        ensures
            final(self).wf(),
            final(self).st().pos >= old(self).st().pos,
            r is Some ==> final(self).st().pos > old(self).st().pos,
            ({
                let (t, st2) = st_next_token(old(self).st());
                &&& final(self).st() == st2
                &&& match (r, t) {
                    (Some(x), Some(tv)) => x@ == tv,
                    (None, None) => true,
                    _ => false,
                }
            }),
    {
        let ghost s = self.source@;
        let ghost pos0 = self.current_index as int;
        let len = self.source.unicode_len();
        let start = skip_seps_exec(self.source, self.current_index);
        proof {
            lemma_skip_seps(s, pos0);
        }
        if start == len {
            return None;
        }
        let end = token_end_exec(self.source, start);
        proof {
            lemma_token_end(s, start as int);
        }
        // Count the newlines being consumed and remember where the last one is.
        let mut i = self.current_index;
        let mut nl: usize = 0;
        let mut last_nl: usize = 0;
        let mut has_nl = false;
        while i < end
            invariant
                0 <= pos0 <= i <= end <= s.len() < usize::MAX,
                s == self.source@,
                nl == count_nl(s.subrange(pos0, i as int)),
                has_nl == (nl > 0),
                has_nl ==> pos0 <= last_nl < i && s[last_nl as int] == '\n' && forall|j: int|
                    last_nl < j < i ==> #[trigger] s[j] != '\n',
                nl <= i - pos0,
            decreases end - i,
        {
            proof {
                assert(s.subrange(pos0, i + 1).drop_last() =~= s.subrange(pos0, i as int));
                assert(s.subrange(pos0, i + 1).last() == s[i as int]);
            }
            if self.source.get_char(i) == '\n' {
                nl = nl + 1;
                last_nl = i;
                has_nl = true;
            }
            i = i + 1;
        }
        proof {
            assert(s.subrange(pos0, pos0) =~= Seq::<char>::empty());
            // Line arithmetic stays in bounds.
            lemma_count_nl_split(s, 0, pos0, end as int);
            lemma_count_nl_nonneg(s.subrange(0, end as int));
            lemma_count_nl_nonneg(s.subrange(0, pos0));
            if has_nl {
                lemma_line_start_after(s, last_nl as int, end as int);
            }
        }
        self.line = self.line + nl;
        if has_nl {
            self.col = 1 + (end - (last_nl + 1));
        } else {
            self.col = self.col + (end - self.current_index);
        }
        self.current_index = end;
        self.current_token_start = start;
        Some(self.source.substring_char(start, end))
    }

    /// Gets the remaining characters in the current line, trimmed, and
    /// advances the cursor to the terminating `\n` (not past it).
    pub fn current_remaining_line(&mut self) -> (r: &'a str)
        requires
            old(self).wf(),
            st_remaining_line_ok(old(self).st()),
        ensures
            final(self).wf(),
            final(self).st().pos >= old(self).st().pos,
            ({
                let (t, st2) = st_remaining_line(old(self).st());
                final(self).st() == st2 && r@ == t
            }),
    {
        let ghost s = self.source@;
        let ghost pos0 = self.current_index as int;
        let len = self.source.unicode_len();
        let j = line_end_exec(self.source, self.current_index);
        proof {
            lemma_line_end(s, pos0);
        }
        let cut = if j < len && self.current_index < j && self.source.get_char(j - 1) == '\r' {
            j - 1
        } else {
            j
        };
        // Trim the window [pos0, cut): find its first and last non-separator.
        let mut a = self.current_index;
        while a < cut && is_sep(self.source.get_char(a))
            invariant
                0 <= pos0 <= a <= cut <= s.len(),
                s == self.source@,
                forall|k: int| pos0 <= k < a ==> is_sep_char(#[trigger] s[k]),
            decreases cut - a,
        {
            a = a + 1;
        }
        let ghost t = s.subrange(pos0, cut as int);
        let ret = if a == cut {
            // Only separators (or nothing) remain on this line.
            proof {
                assert forall|k: int| 0 <= k < t.len() implies is_sep_char(#[trigger] t[k]) by {
                    assert(t[k] == s[pos0 + k]);
                }
                lemma_skip_seps(t, 0);
                if skip_seps(t, 0) < t.len() {
                    assert(!is_sep_char(t[skip_seps(t, 0)]));
                }
                assert(trim_seq(t) =~= Seq::<char>::empty());
            }
            let ret = self.source.substring_char(cut, cut);
            proof {
                assert(ret@ =~= trim_seq(t));
            }
            ret
        } else {
            let mut b = cut;
            while is_sep(self.source.get_char(b - 1))
                invariant
                    0 <= pos0 <= a < b <= cut <= s.len(),
                    s == self.source@,
                    !is_sep_char(s[a as int]),
                    forall|k: int| b <= k < cut ==> is_sep_char(#[trigger] s[k]),
                decreases b,
            {
                b = b - 1;
            }
            proof {
                // Relate the window scan to trim_seq of the window.
                assert forall|k: int| 0 <= k < a - pos0 implies is_sep_char(#[trigger] t[k]) by {
                    assert(t[k] == s[pos0 + k]);
                }
                lemma_skip_seps(t, 0);
                assert(t[a - pos0] == s[a as int]);
                assert(skip_seps(t, 0) == a - pos0) by {
                    if skip_seps(t, 0) < a - pos0 {
                        assert(!is_sep_char(t[skip_seps(t, 0)]));
                    }
                    if skip_seps(t, 0) > a - pos0 {
                        assert(is_sep_char(t[a - pos0]));
                    }
                }
                lemma_rstrip_end(t);
                assert(t[b - pos0 - 1] == s[b - 1]);
                assert(rstrip_end(t) == b - pos0) by {
                    if rstrip_end(t) < b - pos0 {
                        assert(is_sep_char(t[b - pos0 - 1]));
                    }
                    if rstrip_end(t) > b - pos0 {
                        assert(!is_sep_char(t[rstrip_end(t) - 1]));
                        assert(s[pos0 + rstrip_end(t) - 1] == t[rstrip_end(t) - 1]);
                    }
                }
            }
            let ret = self.source.substring_char(a, b);
            proof {
                assert(ret@ =~= trim_seq(t));
            }
            ret
        };
        self.col = self.col + (cut - self.current_index);
        self.current_token_start = self.current_index;
        self.current_index = j;
        proof {
            lemma_count_nl_zero(s, pos0, j as int);
            lemma_count_nl_split(s, 0, pos0, j as int);
        }
        ret
    }

    pub fn line(&self) -> (r: usize)
        ensures
            r == self.st().line,
    {
        self.line
    }

    pub fn col(&self) -> (r: usize)
        ensures
            r == self.st().col,
    {
        self.col
    }

    /// Builds the `ExpectedToken` error for the cursor's current position.
    pub fn err_expected_token(&self, message: &'static str) -> (r: LexError)
        ensures
            r == (LexError::ExpectedToken {
                line: self.st().line as usize,
                col: self.st().col as usize,
                message,
            }),
    {
        LexError::ExpectedToken { line: self.line, col: self.col, message }
    }
}

} // verus!
