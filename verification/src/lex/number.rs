//! Decimal integer parsing and floating-point literal validation over
//! character sequences, with exact specifications.

use vstd::prelude::*;

verus! {

pub open spec fn is_digit(c: char) -> bool {
    0x30 <= c as u32 && c as u32 <= 0x39
}

pub open spec fn digit_val(c: char) -> int {
    c as u32 - 0x30
}

pub open spec fn all_digits(s: Seq<char>) -> bool {
    forall|i: int| 0 <= i < s.len() ==> is_digit(#[trigger] s[i])
}

/// Value of a digit string read in base 10.
pub open spec fn digits_val(s: Seq<char>) -> int
    decreases s.len(),
{
    if s.len() == 0 {
        0
    } else {
        digits_val(s.drop_last()) * 10 + digit_val(s.last())
    }
}

/// What `str::parse::<u32>` accepts: an optional `+` sign, then one or more
/// digits whose value fits in `u32`.
pub open spec fn parse_u32_spec(s: Seq<char>) -> Option<u32> {
    let body = if s.len() > 0 && s[0] == '+' {
        s.subrange(1, s.len() as int)
    } else {
        s
    };
    if body.len() > 0 && all_digits(body) && digits_val(body) <= u32::MAX {
        Some(digits_val(body) as u32)
    } else {
        None
    }
}

/// What `str::parse::<i32>` accepts: an optional sign, then one or more
/// digits whose signed value fits in `i32`.
pub open spec fn parse_i32_spec(s: Seq<char>) -> Option<i32> {
    if s.len() == 0 {
        None
    } else {
        let neg = s[0] == '-';
        let body = if s[0] == '-' || s[0] == '+' {
            s.subrange(1, s.len() as int)
        } else {
            s
        };
        if body.len() > 0 && all_digits(body) {
            let v = digits_val(body);
            if neg && v <= 0x8000_0000 {
                Some((-v) as i32)
            } else if !neg && v <= 0x7FFF_FFFF {
                Some(v as i32)
            } else {
                None
            }
        } else {
            None
        }
    }
}

pub proof fn lemma_digits_val_nonneg(s: Seq<char>)
    requires
        all_digits(s),
    ensures
        digits_val(s) >= 0,
    decreases s.len(),
{
    if s.len() > 0 {
        assert(all_digits(s.drop_last())) by {
            assert(forall|i: int|
                0 <= i < s.len() - 1 ==> s.drop_last()[i] == #[trigger] s[i] && is_digit(s[i]));
        }
        lemma_digits_val_nonneg(s.drop_last());
    }
}

/// A digit string is worth at least any of its prefixes.
pub proof fn lemma_digits_val_prefix(s: Seq<char>, k: int)
    requires
        all_digits(s),
        0 <= k <= s.len(),
    ensures
        digits_val(s.subrange(0, k)) <= digits_val(s),
    decreases s.len(),
{
    if k == s.len() {
        assert(s.subrange(0, k) =~= s);
    } else {
        assert(all_digits(s.drop_last())) by {
            assert(forall|i: int|
                0 <= i < s.len() - 1 ==> s.drop_last()[i] == #[trigger] s[i] && is_digit(s[i]));
        }
        assert(s.subrange(0, k) =~= s.drop_last().subrange(0, k));
        lemma_digits_val_prefix(s.drop_last(), k);
        lemma_digits_val_nonneg(s.drop_last());
        assert(digits_val(s) == digits_val(s.drop_last()) * 10 + digit_val(s.last()));
        assert(digits_val(s.drop_last()) * 10 >= digits_val(s.drop_last())) by (nonlinear_arith)
            requires
                digits_val(s.drop_last()) >= 0,
        ;
    }
}

fn is_digit_exec(c: char) -> (r: bool)
    ensures
        r == is_digit(c),
{
    let u = c as u32;
    0x30 <= u && u <= 0x39
}

/// Parses an unsigned decimal integer exactly as `str::parse::<u32>` does.
pub fn parse_u32(s: &str) -> (r: Option<u32>)
    ensures
        r == parse_u32_spec(s@),
{
    let len = s.unicode_len();
    let start: usize = if len > 0 && s.get_char(0) == '+' {
        1
    } else {
        0
    };
    let ghost body = if s@.len() > 0 && s@[0] == '+' {
        s@.subrange(1, s@.len() as int)
    } else {
        s@
    };
    if start == len {
        return None;
    }
    proof {
        assert(body =~= s@.subrange(start as int, len as int));
    }
    let mut acc: u32 = 0;
    let mut i = start;
    while i < len
        invariant
            len == s@.len(),
            body == (if s@.len() > 0 && s@[0] == '+' {
                s@.subrange(1, s@.len() as int)
            } else {
                s@
            }),
            start < len,
            start <= i <= len,
            body == s@.subrange(start as int, len as int),
            forall|j: int| 0 <= j < i - start ==> is_digit(#[trigger] body[j]),
            acc == digits_val(body.subrange(0, i - start)),
        decreases len - i,
    {
        let c = s.get_char(i);
        proof {
            assert(body[i - start] == s@[i as int]);
        }
        if !is_digit_exec(c) {
            return None;
        }
        let d = c as u32 - 0x30;
        let ghost pre = body.subrange(0, i - start);
        let ghost pre1 = body.subrange(0, i + 1 - start);
        proof {
            assert(pre1.drop_last() =~= pre);
            assert(pre1.last() == body[i - start]);
        }
        let step = match acc.checked_mul(10) {
            Some(x) => x.checked_add(d),
            None => None,
        };
        match step {
            Some(v) => {
                acc = v;
            },
            None => {
                // The prefix alone is already worth more than `u32::MAX`,
                // so if the rest is all digits the value cannot fit.
                proof {
                    if all_digits(body) {
                        assert(digits_val(pre1) > u32::MAX);
                        lemma_digits_val_prefix(body, i + 1 - start);
                    }
                }
                return None;
            },
        }
        i = i + 1;
    }
    proof {
        assert(body.subrange(0, body.len() as int) =~= body);
    }
    Some(acc)
}

/// Parses a signed decimal integer exactly as `str::parse::<i32>` does.
pub fn parse_i32(s: &str) -> (r: Option<i32>)
    ensures
        r == parse_i32_spec(s@),
{
    let len = s.unicode_len();
    if len == 0 {
        return None;
    }
    let first = s.get_char(0);
    let neg = first == '-';
    let start: usize = if first == '-' || first == '+' {
        1
    } else {
        0
    };
    let ghost body = if s@[0] == '-' || s@[0] == '+' {
        s@.subrange(1, s@.len() as int)
    } else {
        s@
    };
    if start == len {
        return None;
    }
    proof {
        assert(body =~= s@.subrange(start as int, len as int));
    }
    let limit: u32 = if neg {
        0x8000_0000
    } else {
        0x7FFF_FFFF
    };
    let mut acc: u32 = 0;
    let mut i = start;
    while i < len
        invariant
            len == s@.len(),
            s@.len() > 0,
            neg == (s@[0] == '-'),
            body == (if s@[0] == '-' || s@[0] == '+' {
                s@.subrange(1, s@.len() as int)
            } else {
                s@
            }),
            start < len,
            start <= i <= len,
            body == s@.subrange(start as int, len as int),
            forall|j: int| 0 <= j < i - start ==> is_digit(#[trigger] body[j]),
            acc == digits_val(body.subrange(0, i - start)),
            acc <= limit,
            limit == if neg {
                0x8000_0000u32
            } else {
                0x7FFF_FFFFu32
            },
        decreases len - i,
    {
        let c = s.get_char(i);
        proof {
            assert(body[i - start] == s@[i as int]);
        }
        if !is_digit_exec(c) {
            return None;
        }
        let d = c as u32 - 0x30;
        let ghost pre1 = body.subrange(0, i + 1 - start);
        proof {
            assert(pre1.drop_last() =~= body.subrange(0, i - start));
            assert(pre1.last() == body[i - start]);
        }
        let step = match acc.checked_mul(10) {
            Some(x) => x.checked_add(d),
            None => None,
        };
        match step {
            Some(v) if v <= limit => {
                acc = v;
            },
            _ => {
                proof {
                    if all_digits(body) {
                        assert(digits_val(pre1) > limit);
                        lemma_digits_val_prefix(body, i + 1 - start);
                    }
                }
                return None;
            },
        }
        i = i + 1;
    }
    proof {
        assert(body.subrange(0, body.len() as int) =~= body);
    }
    if neg {
        if acc == 0x8000_0000 {
            Some(i32::MIN)
        } else {
            Some(0i32 - (acc as i32))
        }
    } else {
        Some(acc as i32)
    }
}

/// Index of the first `e` or `E` at or after `i`, or the length of `s`.
pub open spec fn first_exp_idx(s: Seq<char>, i: int) -> int
    decreases s.len() - i,
{
    if i < 0 || i >= s.len() {
        s.len() as int
    } else if s[i] == 'e' || s[i] == 'E' {
        i
    } else {
        first_exp_idx(s, i + 1)
    }
}

/// Index of the first `.` at or after `i`, or the length of `s`.
pub open spec fn first_dot_idx(s: Seq<char>, i: int) -> int
    decreases s.len() - i,
{
    if i < 0 || i >= s.len() {
        s.len() as int
    } else if s[i] == '.' {
        i
    } else {
        first_dot_idx(s, i + 1)
    }
}

/// Case-insensitive match of `s` against the lower-case word `w`.
pub open spec fn matches_ci(s: Seq<char>, w: Seq<char>) -> bool {
    s.len() == w.len() && forall|i: int|
        0 <= i < s.len() ==> (#[trigger] s[i] == w[i] || s[i] as u32 == w[i] as u32 - 0x20)
}

/// The mantissa of a float literal: `Digit+`, `Digit+ . Digit*` or
/// `Digit* . Digit+`.
pub open spec fn is_mantissa(m: Seq<char>) -> bool {
    let dot = first_dot_idx(m, 0);
    let ip = m.subrange(0, dot);
    if dot == m.len() {
        ip.len() > 0 && all_digits(ip)
    } else {
        let fp = m.subrange(dot + 1, m.len() as int);
        all_digits(ip) && all_digits(fp) && ip.len() + fp.len() > 0
    }
}

/// An exponent tail without its leading `e`/`E`: an optional sign then one
/// or more digits.
pub open spec fn is_exponent_tail(x: Seq<char>) -> bool {
    let b = if x.len() > 0 && (x[0] == '+' || x[0] == '-') {
        x.subrange(1, x.len() as int)
    } else {
        x
    };
    b.len() > 0 && all_digits(b)
}

/// A number with optional exponent part.
pub open spec fn is_float_number(s: Seq<char>) -> bool {
    let e = first_exp_idx(s, 0);
    if e == s.len() {
        is_mantissa(s)
    } else {
        is_mantissa(s.subrange(0, e)) && is_exponent_tail(s.subrange(e + 1, s.len() as int))
    }
}

/// What `str::parse::<f32>` accepts: an optional sign, then `inf`,
/// `infinity` or `nan` (case-insensitively) or a decimal number with
/// optional fraction and exponent. Whether the value fits the type never
/// matters: out-of-range values round to infinity rather than failing.
pub open spec fn is_float_literal(s: Seq<char>) -> bool {
    let b = if s.len() > 0 && (s[0] == '+' || s[0] == '-') {
        s.subrange(1, s.len() as int)
    } else {
        s
    };
    ||| matches_ci(b, seq!['i', 'n', 'f'])
    ||| matches_ci(b, seq!['i', 'n', 'f', 'i', 'n', 'i', 't', 'y'])
    ||| matches_ci(b, seq!['n', 'a', 'n'])
    ||| is_float_number(b)
}

/// Checks that a window of `s` is all digits; `r` is the window's length
/// being positive and every character a digit.
fn digits_only(s: &str, from: usize, to: usize) -> (r: bool)
    requires
        from <= to <= s@.len(),
    ensures
        r == all_digits(s@.subrange(from as int, to as int)),
{
    let ghost w = s@.subrange(from as int, to as int);
    let mut i = from;
    while i < to
        invariant
            from <= i <= to <= s@.len(),
            w =~= s@.subrange(from as int, to as int),
            forall|j: int| 0 <= j < i - from ==> is_digit(#[trigger] w[j]),
        decreases to - i,
    {
        proof {
            assert(w[i - from] == s@[i as int]);
        }
        if !is_digit_exec(s.get_char(i)) {
            return false;
        }
        i = i + 1;
    }
    true
}

/// Case-insensitive comparison of a window of `s` against a lower-case word.
fn window_matches_ci(s: &str, from: usize, w: &str) -> (r: bool)
    requires
        from <= s@.len(),
    ensures
        r == matches_ci(s@.subrange(from as int, s@.len() as int), w@),
{
    let ghost win = s@.subrange(from as int, s@.len() as int);
    let len = s.unicode_len();
    let wlen = w.unicode_len();
    if len - from != wlen {
        return false;
    }
    let mut i: usize = 0;
    while i < wlen
        invariant
            from + wlen == len,
            len == s@.len(),
            wlen == w@.len(),
            0 <= i <= wlen,
            win =~= s@.subrange(from as int, s@.len() as int),
            forall|j: int|
                0 <= j < i ==> (#[trigger] win[j] == w@[j] || win[j] as u32 == w@[j] as u32 - 0x20),
        decreases wlen - i,
    {
        let c = s.get_char(from + i);
        let wc = w.get_char(i);
        proof {
            assert(win[i as int] == s@[from + i]);
        }
        if !(c == wc || (wc as u32 >= 0x20 && c as u32 == wc as u32 - 0x20)) {
            return false;
        }
        i = i + 1;
    }
    true
}

/// Finds `first_exp_idx` of the window starting at `from`.
fn find_exp(s: &str, from: usize) -> (r: usize)
    requires
        from <= s@.len(),
    ensures
        from <= r <= s@.len(),
        r - from == first_exp_idx(s@.subrange(from as int, s@.len() as int), 0),
{
    let ghost win = s@.subrange(from as int, s@.len() as int);
    let len = s.unicode_len();
    let mut i = from;
    while i < len && s.get_char(i) != 'e' && s.get_char(i) != 'E'
        invariant
            from <= i <= len,
            len == s@.len(),
            win =~= s@.subrange(from as int, s@.len() as int),
            first_exp_idx(win, 0) == first_exp_idx(win, i - from),
        decreases len - i,
    {
        proof {
            assert(win[i - from] == s@[i as int]);
            assert(first_exp_idx(win, i - from) == first_exp_idx(win, i - from + 1));
        }
        i = i + 1;
    }
    proof {
        if i < len {
            assert(win[i - from] == s@[i as int]);
            assert(first_exp_idx(win, i - from) == i - from);
        }
    }
    i
}

/// Finds `first_dot_idx` within the window `[from, to)`.
fn find_dot(s: &str, from: usize, to: usize) -> (r: usize)
    requires
        from <= to <= s@.len(),
    ensures
        from <= r <= to,
        r - from == first_dot_idx(s@.subrange(from as int, to as int), 0),
{
    let ghost win = s@.subrange(from as int, to as int);
    let mut i = from;
    while i < to && s.get_char(i) != '.'
        invariant
            from <= i <= to <= s@.len(),
            win =~= s@.subrange(from as int, to as int),
            first_dot_idx(win, 0) == first_dot_idx(win, i - from),
        decreases to - i,
    {
        proof {
            assert(win[i - from] == s@[i as int]);
            assert(first_dot_idx(win, i - from) == first_dot_idx(win, i - from + 1));
        }
        i = i + 1;
    }
    proof {
        if i < to {
            assert(win[i - from] == s@[i as int]);
            assert(first_dot_idx(win, i - from) == i - from);
        }
    }
    i
}

/// Checks that the window `[from, to)` of `s` is a valid mantissa.
fn mantissa_ok(s: &str, from: usize, to: usize) -> (r: bool)
    requires
        from <= to <= s@.len(),
    ensures
        r == is_mantissa(s@.subrange(from as int, to as int)),
{
    let ghost m = s@.subrange(from as int, to as int);
    let dot = find_dot(s, from, to);
    proof {
        assert(m.subrange(0, dot - from) =~= s@.subrange(from as int, dot as int));
    }
    if dot == to {
        from < to && digits_only(s, from, to)
    } else {
        proof {
            assert(m.subrange(dot - from + 1, m.len() as int) =~= s@.subrange(
                dot + 1,
                to as int,
            ));
        }
        let ip_ok = digits_only(s, from, dot);
        let fp_ok = digits_only(s, dot + 1, to);
        ip_ok && fp_ok && (dot > from || dot + 1 < to)
    }
}

/// Checks that the window starting at `from` is a valid exponent tail.
fn exponent_tail_ok(s: &str, from: usize) -> (r: bool)
    requires
        from <= s@.len(),
    ensures
        r == is_exponent_tail(s@.subrange(from as int, s@.len() as int)),
{
    let ghost x = s@.subrange(from as int, s@.len() as int);
    let len = s.unicode_len();
    let start: usize = if from < len && (s.get_char(from) == '+' || s.get_char(from) == '-') {
        proof {
            assert(x[0] == s@[from as int]);
        }
        from + 1
    } else {
        proof {
            if x.len() > 0 {
                assert(x[0] == s@[from as int]);
            }
        }
        from
    };
    proof {
        assert(s@.subrange(start as int, s@.len() as int) =~= if x.len() > 0 && (x[0] == '+'
            || x[0] == '-') {
            x.subrange(1, x.len() as int)
        } else {
            x
        });
    }
    start < len && digits_only(s, start, len)
}

/// Decides `is_float_literal`, the syntax `str::parse::<f32>` accepts.
pub fn is_float_text(s: &str) -> (r: bool)
    ensures
        r == is_float_literal(s@),
{
    let len = s.unicode_len();
    let start: usize = if len > 0 && (s.get_char(0) == '+' || s.get_char(0) == '-') {
        1
    } else {
        0
    };
    let ghost b = if s@.len() > 0 && (s@[0] == '+' || s@[0] == '-') {
        s@.subrange(1, s@.len() as int)
    } else {
        s@
    };
    proof {
        assert(b =~= s@.subrange(start as int, s@.len() as int));
        reveal_strlit("inf");
        reveal_strlit("infinity");
        reveal_strlit("nan");
        assert("inf"@ =~= seq!['i', 'n', 'f']);
        assert("infinity"@ =~= seq!['i', 'n', 'f', 'i', 'n', 'i', 't', 'y']);
        assert("nan"@ =~= seq!['n', 'a', 'n']);
    }
    if window_matches_ci(s, start, "inf") || window_matches_ci(s, start, "infinity")
        || window_matches_ci(s, start, "nan") {
        return true;
    }
    let e = find_exp(s, start);
    let ghost erel = first_exp_idx(b, 0);
    if e == len {
        proof {
            assert(b.subrange(0, erel) =~= b);
        }
        mantissa_ok(s, start, len)
    } else {
        proof {
            assert(b.subrange(0, erel) =~= s@.subrange(start as int, e as int));
            assert(b.subrange(erel + 1, b.len() as int) =~= s@.subrange(
                e + 1,
                s@.len() as int,
            ));
        }
        mantissa_ok(s, start, e) && exponent_tail_ok(s, e + 1)
    }
}

} // verus!
