//! Scanning free-form text: decimal numbers, whitespace-separated words,
//! and the sum of the odd numbers among them.

use crate::text::unicode_ws;
use vstd::prelude::*;

verus! {

/// Whether `c` is an ASCII decimal digit.
pub open spec fn is_digit_char(c: char) -> bool {
    48 <= c as int <= 57
}

/// Whether every character of `t` is an ASCII decimal digit.
pub open spec fn all_digit_chars(t: Seq<char>) -> bool {
    forall|i: int| 0 <= i < t.len() ==> is_digit_char(#[trigger] t[i])
}

/// The number written by the digit string `t`.
pub open spec fn digits_val(t: Seq<char>) -> int
    decreases t.len(),
{
    if t.len() == 0 {
        0
    } else {
        digits_val(t.drop_last()) * 10 + (t.last() as int - 48)
    }
}

proof fn lemma_digits_val_nonneg(t: Seq<char>)
    requires
        all_digit_chars(t),
    ensures
        digits_val(t) >= 0,
    decreases t.len(),
{
    if t.len() > 0 {
        lemma_digits_val_nonneg(t.drop_last());
    }
}

proof fn lemma_digits_val_prefix(t: Seq<char>, k: int)
    requires
        all_digit_chars(t),
        0 <= k <= t.len(),
    ensures
        digits_val(t.take(k)) <= digits_val(t),
    decreases t.len() - k,
{
    if k < t.len() {
        lemma_digits_val_prefix(t, k + 1);
        assert(t.take(k + 1).drop_last() =~= t.take(k));
        lemma_digits_val_nonneg(t.take(k));
    } else {
        assert(t.take(k) =~= t);
    }
}

/// What `u32` parsing makes of `t`: an optional leading `+`, then at
/// least one digit, written value at most `u32::MAX`.
pub open spec fn parse_u32_spec(t: Seq<char>) -> Option<int> {
    let body = if t.len() >= 1 && t[0] == '+' {
        t.skip(1)
    } else {
        t
    };
    if body.len() >= 1 && all_digit_chars(body) && digits_val(body) <= u32::MAX {
        Some(digits_val(body))
    } else {
        None
    }
}

/// Reads `t` as a decimal `u32`, allowing one leading `+`.
pub fn parse_u32(t: &str) -> (r: Option<u32>)
    ensures
        parse_u32_spec(t@).is_some() ==> r.is_some() && r.unwrap() == parse_u32_spec(t@).unwrap(),
        parse_u32_spec(t@).is_none() ==> r.is_none(),
{
    let n = t.unicode_len();
    let start: usize = if n >= 1 && t.get_char(0) == '+' {
        1
    } else {
        0
    };
    let ghost body = if t@.len() >= 1 && t@[0] == '+' {
        t@.skip(1)
    } else {
        t@
    };
    if n == start {
        return None;
    }
    let mut acc: u64 = 0;
    let mut i: usize = start;
    while i < n
        invariant
            start <= i <= n,
            n == t@.len(),
            start == 1 ==> t@.len() >= 1 && t@[0] == '+',
            start == 0 ==> !(t@.len() >= 1 && t@[0] == '+'),
            body == (if t@.len() >= 1 && t@[0] == '+' {
                t@.skip(1)
            } else {
                t@
            }),
            n - start == body.len(),
            all_digit_chars(body.take(i - start)),
            acc == digits_val(body.take(i - start)),
            acc <= u32::MAX,
        decreases n - i,
    {
        let c = t.get_char(i);
        let cv = c as u32;
        proof {
            assert(body[i - start] == t@[i as int]);
        }
        if cv < 48 || cv > 57 {
            proof {
                assert(!is_digit_char(body[i - start]));
            }
            return None;
        }
        proof {
            assert(body.take(i - start + 1).drop_last() =~= body.take(i - start));
            assert(body.take(i - start + 1).last() == body[i - start]);
        }
        let wide: u64 = acc * 10 + (cv - 48) as u64;
        if wide > u32::MAX as u64 {
            proof {
                if all_digit_chars(body) {
                    lemma_digits_val_prefix(body, i - start + 1);
                }
            }
            return None;
        }
        acc = wide;
        i += 1;
    }
    proof {
        assert(body.take(n - start) =~= body);
    }
    Some(acc as u32)
}

/// What `usize` parsing makes of `t`: an optional leading `+`, then at
/// least one digit, written value at most `usize::MAX`.
pub open spec fn parse_usize_spec(t: Seq<char>) -> Option<int> {
    let body = if t.len() >= 1 && t[0] == '+' {
        t.skip(1)
    } else {
        t
    };
    if body.len() >= 1 && all_digit_chars(body) && digits_val(body) <= usize::MAX {
        Some(digits_val(body))
    } else {
        None
    }
}

/// Reads `t` as a decimal `usize`, allowing one leading `+`.
pub fn parse_usize(t: &str) -> (r: Option<usize>)
    ensures
        parse_usize_spec(t@).is_some() ==> r.is_some() && r.unwrap() == parse_usize_spec(
            t@,
        ).unwrap(),
        parse_usize_spec(t@).is_none() ==> r.is_none(),
{
    let n = t.unicode_len();
    let start: usize = if n >= 1 && t.get_char(0) == '+' {
        1
    } else {
        0
    };
    let ghost body = if t@.len() >= 1 && t@[0] == '+' {
        t@.skip(1)
    } else {
        t@
    };
    if n == start {
        return None;
    }
    let mut acc: usize = 0;
    let mut i: usize = start;
    while i < n
        invariant
            start <= i <= n,
            n == t@.len(),
            start == 1 ==> t@.len() >= 1 && t@[0] == '+',
            start == 0 ==> !(t@.len() >= 1 && t@[0] == '+'),
            body == (if t@.len() >= 1 && t@[0] == '+' {
                t@.skip(1)
            } else {
                t@
            }),
            n - start == body.len(),
            all_digit_chars(body.take(i - start)),
            acc == digits_val(body.take(i - start)),
        decreases n - i,
    {
        let c = t.get_char(i);
        let cv = c as u32;
        proof {
            assert(body[i - start] == t@[i as int]);
        }
        if cv < 48 || cv > 57 {
            proof {
                assert(!is_digit_char(body[i - start]));
            }
            return None;
        }
        proof {
            assert(body.take(i - start + 1).drop_last() =~= body.take(i - start));
            assert(body.take(i - start + 1).last() == body[i - start]);
        }
        let d = (cv - 48) as usize;
        if acc > (usize::MAX - d) / 10 {
            proof {
                assert(acc * 10 + d > usize::MAX) by (nonlinear_arith)
                    requires
                        acc > (usize::MAX - d) / 10 && 0 <= d <= 9,
                {}
                if all_digit_chars(body) {
                    lemma_digits_val_prefix(body, i - start + 1);
                }
            }
            return None;
        }
        proof {
            assert(acc * 10 + d <= usize::MAX) by (nonlinear_arith)
                requires
                    acc <= (usize::MAX - d) / 10 && 0 <= d <= 9,
            {}
        }
        acc = acc * 10 + d;
        i += 1;
    }
    proof {
        assert(body.take(n - start) =~= body);
    }
    Some(acc)
}

/// The end of the word starting at `i`: the first position at or after it
/// holding whitespace, or the end of the text.
pub open spec fn tok_end(s: Seq<char>, i: int) -> int
    decreases s.len() - i
        when 0 <= i <= s.len()
{
    if i >= s.len() || unicode_ws(s[i]) {
        i
    } else {
        tok_end(s, i + 1)
    }
}

proof fn lemma_tok_end_bounds(s: Seq<char>, i: int)
    requires
        0 <= i <= s.len(),
    ensures
        i <= tok_end(s, i) <= s.len(),
    decreases s.len() - i,
{
    if !(i >= s.len() || unicode_ws(s[i])) {
        lemma_tok_end_bounds(s, i + 1);
    }
}

/// What the word `t` adds to the sum: its value when it reads as an odd
/// `u32`, and nothing otherwise.
pub open spec fn odd_contribution(t: Seq<char>) -> int {
    match parse_u32_spec(t) {
        Some(v) => if v % 2 == 1 {
            v
        } else {
            0
        },
        None => 0,
    }
}

/// The summed odd numbers among the whitespace-separated words of `s`
/// from position `i` on.
pub open spec fn sum_odds_from(s: Seq<char>, i: int) -> int
    decreases s.len() - i
        when 0 <= i <= s.len()
        via sum_odds_from_decreases
{
    if i >= s.len() {
        0
    } else if unicode_ws(s[i]) {
        sum_odds_from(s, i + 1)
    } else {
        odd_contribution(s.subrange(i, tok_end(s, i))) + sum_odds_from(s, tok_end(s, i))
    }
}

#[via_fn]
proof fn sum_odds_from_decreases(s: Seq<char>, i: int) {
    if 0 <= i < s.len() && !unicode_ws(s[i]) {
        lemma_tok_end_bounds(s, i + 1);
        assert(tok_end(s, i) == tok_end(s, i + 1));
    }
}

proof fn lemma_sum_odds_nonneg(s: Seq<char>, i: int)
    requires
        0 <= i <= s.len(),
    ensures
        sum_odds_from(s, i) >= 0,
    decreases s.len() - i,
{
    if i < s.len() {
        if unicode_ws(s[i]) {
            lemma_sum_odds_nonneg(s, i + 1);
        } else {
            lemma_tok_end_bounds(s, i + 1);
            assert(tok_end(s, i) == tok_end(s, i + 1));
            lemma_sum_odds_nonneg(s, tok_end(s, i));
            let tok = s.subrange(i, tok_end(s, i));
            if parse_u32_spec(tok).is_some() {
                let body = if tok.len() >= 1 && tok[0] == '+' {
                    tok.skip(1)
                } else {
                    tok
                };
                lemma_digits_val_nonneg(body);
            }
        }
    }
}

/// The sum of the whitespace-separated words of `s` that read as odd
/// `u32` values.
pub fn sum_of_odds(s: &str) -> (r: u32)
    requires
        sum_odds_from(s@, 0) <= u32::MAX,
    ensures
        r == sum_odds_from(s@, 0),
{
    let n = s.unicode_len();
    let mut acc: u32 = 0;
    let mut i: usize = 0;
    while i < n
        invariant
            i <= n,
            n == s@.len(),
            acc + sum_odds_from(s@, i as int) == sum_odds_from(s@, 0),
            sum_odds_from(s@, 0) <= u32::MAX,
        decreases n - i,
    {
        let c = s.get_char(i);
        if crate::text::is_ws_char(c) {
            i += 1;
        } else {
            let mut e: usize = i;
            while e < n && !crate::text::is_ws_char(s.get_char(e))
                invariant
                    i <= e <= n,
                    n == s@.len(),
                    tok_end(s@, i as int) == tok_end(s@, e as int),
                decreases n - e,
            {
                e += 1;
            }
            proof {
                assert(tok_end(s@, e as int) == e);
            }
            let tok = s.substring_char(i, e);
            proof {
                lemma_sum_odds_nonneg(s@, e as int);
                let tokspec = s@.subrange(i as int, e as int);
                if parse_u32_spec(tokspec).is_some() {
                    let body = if tokspec.len() >= 1 && tokspec[0] == '+' {
                        tokspec.skip(1)
                    } else {
                        tokspec
                    };
                    lemma_digits_val_nonneg(body);
                }
            }
            match parse_u32(tok) {
                Some(v) => {
                    if v % 2 == 1 {
                        acc += v;
                    }
                },
                None => {},
            }
            i = e;
        }
    }
    acc
}

/// The sum of the odd `u32` words of `s`, when it fits; nothing when the
/// total overflows. Unlike [`sum_of_odds`], callers need not know the
/// total beforehand.
pub fn sum_of_odds_checked(s: &str) -> (r: Option<u32>)
    ensures
        sum_odds_from(s@, 0) <= u32::MAX ==> r == Some(sum_odds_from(s@, 0) as u32),
        sum_odds_from(s@, 0) > u32::MAX ==> r.is_none(),
{
    let n = s.unicode_len();
    let mut acc: u128 = 0;
    let mut i: usize = 0;
    while i < n
        invariant
            i <= n,
            n == s@.len(),
            acc + sum_odds_from(s@, i as int) == sum_odds_from(s@, 0),
            acc <= i * 0xFFFF_FFFFu128,
        decreases n - i,
    {
        let c = s.get_char(i);
        if crate::text::is_ws_char(c) {
            i += 1;
        } else {
            let mut e: usize = i;
            while e < n && !crate::text::is_ws_char(s.get_char(e))
                invariant
                    i <= e <= n,
                    n == s@.len(),
                    tok_end(s@, i as int) == tok_end(s@, e as int),
                decreases n - e,
            {
                e += 1;
            }
            proof {
                assert(tok_end(s@, e as int) == e);
            }
            let tok = s.substring_char(i, e);
            proof {
                lemma_sum_odds_nonneg(s@, e as int);
                let tokspec = s@.subrange(i as int, e as int);
                if parse_u32_spec(tokspec).is_some() {
                    let body = if tokspec.len() >= 1 && tokspec[0] == '+' {
                        tokspec.skip(1)
                    } else {
                        tokspec
                    };
                    lemma_digits_val_nonneg(body);
                }
            }
            match parse_u32(tok) {
                Some(v) => {
                    if v % 2 == 1 {
                        acc += v as u128;
                    }
                },
                None => {},
            }
            i = e;
        }
    }
    if acc <= u32::MAX as u128 {
        Some(acc as u32)
    } else {
        None
    }
}

/// The first position at or after `j` whose character is not whitespace,
/// or the end of `t`.
pub open spec fn skip_ws(t: Seq<char>, j: int) -> int
    decreases t.len() - j
        when 0 <= j <= t.len()
{
    if j >= t.len() || !unicode_ws(t[j]) {
        j
    } else {
        skip_ws(t, j + 1)
    }
}

/// Where the run of trailing whitespace of `t` begins: one past the last
/// character that is not whitespace, or zero.
pub open spec fn ws_suffix_start(t: Seq<char>) -> int
    decreases t.len(),
{
    if t.len() == 0 || !unicode_ws(t.last()) {
        t.len() as int
    } else {
        ws_suffix_start(t.drop_last())
    }
}

/// `t` without its leading and trailing whitespace.
pub open spec fn trimmed(t: Seq<char>) -> Seq<char> {
    if skip_ws(t, 0) >= ws_suffix_start(t) {
        Seq::empty()
    } else {
        t.subrange(skip_ws(t, 0), ws_suffix_start(t))
    }
}

proof fn lemma_skip_ws_bounds(t: Seq<char>, j: int)
    requires
        0 <= j <= t.len(),
    ensures
        j <= skip_ws(t, j) <= t.len(),
        forall|k: int| j <= k < skip_ws(t, j) ==> unicode_ws(#[trigger] t[k]),
    decreases t.len() - j,
{
    if !(j >= t.len() || !unicode_ws(t[j])) {
        lemma_skip_ws_bounds(t, j + 1);
    }
}

proof fn lemma_ws_suffix_at(t: Seq<char>, b: int)
    requires
        0 <= b <= t.len(),
        forall|j: int| b <= j < t.len() ==> unicode_ws(#[trigger] t[j]),
        b == 0 || !unicode_ws(t[b - 1]),
    ensures
        ws_suffix_start(t) == b,
    decreases t.len(),
{
    if t.len() == b {
        if b > 0 {
            assert(!unicode_ws(t.last()));
        }
    } else {
        assert(unicode_ws(t.last()));
        assert(forall|j: int|
            b <= j < t.drop_last().len() ==> unicode_ws(#[trigger] t.drop_last()[j]));
        if b > 0 {
            assert(t.drop_last()[b - 1] == t[b - 1]);
        }
        lemma_ws_suffix_at(t.drop_last(), b);
    }
}

/// `t` without its leading and trailing whitespace.
pub fn trimmed_str<'a>(t: &'a str) -> (r: &'a str)
    ensures
        r@ == trimmed(t@),
{
    let n = t.unicode_len();
    let mut a: usize = 0;
    while a < n && crate::text::is_ws_char(t.get_char(a))
        invariant
            0 <= a <= n,
            n == t@.len(),
            skip_ws(t@, 0) == skip_ws(t@, a as int),
        decreases n - a,
    {
        a += 1;
    }
    proof {
        assert(skip_ws(t@, a as int) == a);
    }
    let mut b: usize = n;
    while b > a && crate::text::is_ws_char(t.get_char(b - 1))
        invariant
            a <= b <= n,
            n == t@.len(),
            skip_ws(t@, 0) == a,
            forall|j: int| b <= j < n ==> unicode_ws(#[trigger] t@[j]),
        decreases b,
    {
        b -= 1;
    }
    proof {
        if b == a {
            if a == 0 {
                lemma_ws_suffix_at(t@, 0);
                assert(trimmed(t@) =~= Seq::<char>::empty());
            } else {
                // Everything before `a` and after `b` is whitespace, and
                // `a == b`, so the whole text is whitespace.
                lemma_skip_ws_bounds(t@, 0);
                assert(forall|j: int| 0 <= j < n ==> unicode_ws(#[trigger] t@[j]));
                lemma_ws_suffix_at(t@, 0);
                assert(skip_ws(t@, 0) >= ws_suffix_start(t@));
                assert(trimmed(t@) =~= Seq::<char>::empty());
            }
        } else {
            assert(!unicode_ws(t@[b - 1]));
            lemma_ws_suffix_at(t@, b as int);
            assert(trimmed(t@) == t@.subrange(a as int, b as int));
        }
    }
    t.substring_char(a, b)
}

/// The position of the newline ending the line that starts at `i`, or
/// the end of `s`.
pub open spec fn line_end(s: Seq<char>, i: int) -> int
    decreases s.len() - i
        when 0 <= i <= s.len()
{
    if i >= s.len() || s[i] == '\n' {
        i
    } else {
        line_end(s, i + 1)
    }
}

pub(crate) proof fn lemma_line_end_bounds(s: Seq<char>, i: int)
    requires
        0 <= i <= s.len(),
    ensures
        i <= line_end(s, i) <= s.len(),
    decreases s.len() - i,
{
    if !(i >= s.len() || s[i] == '\n') {
        lemma_line_end_bounds(s, i + 1);
    }
}

/// The line that starts at `i`: up to the next newline, with one
/// carriage return stripped before a newline.
pub open spec fn line_content(s: Seq<char>, i: int) -> Seq<char> {
    let e = line_end(s, i);
    let raw = s.subrange(i, e);
    if e < s.len() && raw.len() >= 1 && raw.last() == '\r' {
        raw.drop_last()
    } else {
        raw
    }
}

/// The position of the first colon of `t` at or after `j`, or the end.
pub open spec fn colon_pos(t: Seq<char>, j: int) -> int
    decreases t.len() - j
        when 0 <= j <= t.len()
{
    if j >= t.len() || t[j] == ':' {
        j
    } else {
        colon_pos(t, j + 1)
    }
}

proof fn lemma_colon_pos_bounds(t: Seq<char>, j: int)
    requires
        0 <= j <= t.len(),
    ensures
        j <= colon_pos(t, j) <= t.len(),
    decreases t.len() - j,
{
    if !(j >= t.len() || t[j] == ':') {
        lemma_colon_pos_bounds(t, j + 1);
    }
}

/// A value that can be read out of one field of a line.
pub trait FieldValue: Sized {
    /// What parsing makes of the text `t`.
    spec fn spec_parse(t: Seq<char>) -> Option<Self>;

    /// Reads a value out of `t`.
    fn parse_value(t: &str) -> (r: Option<Self>)
        ensures
            r == Self::spec_parse(t@),
    ;
}

impl FieldValue for u32 {
    open spec fn spec_parse(t: Seq<char>) -> Option<u32> {
        match parse_u32_spec(t) {
            Some(v) => Some(v as u32),
            None => None,
        }
    }

    fn parse_value(t: &str) -> (r: Option<u32>) {
        parse_u32(t)
    }
}

/// What the line `t` contributes: its trimmed key and parsed value, when
/// the line holds a colon and its value part parses.
pub open spec fn line_pair<T: FieldValue>(t: Seq<char>) -> Option<(Seq<char>, T)> {
    let c = colon_pos(t, 0);
    if c >= t.len() {
        None
    } else {
        let key = trimmed(t.subrange(0, c));
        let val = trimmed(t.subrange(c + 1, t.len() as int));
        match T::spec_parse(val) {
            Some(v) => Some((key, v)),
            None => None,
        }
    }
}

/// The key-value pairs read from the lines of `s` at `i` and beyond.
pub open spec fn pairs_from<T: FieldValue>(s: Seq<char>, i: int) -> Seq<(Seq<char>, T)>
    decreases s.len() - i
        when 0 <= i <= s.len()
        via pairs_from_decreases::<T>
{
    if i >= s.len() {
        Seq::empty()
    } else {
        let e = line_end(s, i);
        let next = if e < s.len() {
            e + 1
        } else {
            e
        };
        let rest = pairs_from::<T>(s, next);
        match line_pair::<T>(line_content(s, i)) {
            Some(p) => seq![p] + rest,
            None => rest,
        }
    }
}

#[via_fn]
proof fn pairs_from_decreases<T: FieldValue>(s: Seq<char>, i: int) {
    if 0 <= i < s.len() {
        lemma_line_end_bounds(s, i);
    }
}

/// The `key: value` pairs among the lines of `s`: each line with a colon
/// whose trimmed value part parses as a `T` yields its trimmed key and
/// that value, in order.
pub fn create_pairs<'a, T: FieldValue>(s: &'a str) -> (r: Vec<(&'a str, T)>)
    ensures
        r@.len() == pairs_from::<T>(s@, 0).len(),
        forall|k: int|
            0 <= k < r@.len() ==> (#[trigger] r@[k]).0@ == pairs_from::<T>(s@, 0)[k].0 && r@[k].1
                == pairs_from::<T>(s@, 0)[k].1,
{
    let n = s.unicode_len();
    let mut out: Vec<(&'a str, T)> = Vec::new();
    let ghost all = pairs_from::<T>(s@, 0);
    let ghost mut done = Seq::<(Seq<char>, T)>::empty();
    let mut i: usize = 0;
    while i < n
        invariant
            0 <= i <= n,
            n == s@.len(),
            all == pairs_from::<T>(s@, 0),
            done + pairs_from::<T>(s@, i as int) == all,
            out@.len() == done.len(),
            forall|k: int|
                0 <= k < out@.len() ==> (#[trigger] out@[k]).0@ == done[k].0 && out@[k].1
                    == done[k].1,
        decreases n - i,
    {
        // Find the end of this line.
        let mut e: usize = i;
        while e < n && s.get_char(e) != '\n'
            invariant
                i <= e <= n,
                n == s@.len(),
                line_end(s@, i as int) == line_end(s@, e as int),
            decreases n - e,
        {
            e += 1;
        }
        proof {
            assert(line_end(s@, e as int) == e);
        }
        let content_end: usize = if e < n && e > i && s.get_char(e - 1) == '\r' {
            e - 1
        } else {
            e
        };
        let line = s.substring_char(i, content_end);
        proof {
            let raw = s@.subrange(i as int, e as int);
            if e > i {
                assert(raw.last() == s@[e - 1]);
            }
            if content_end < e {
                assert(raw.drop_last() =~= s@.subrange(i as int, e - 1));
            }
            assert(line@ == line_content(s@, i as int));
        }

        // Find the first colon of the line.
        let line_len = line.unicode_len();
        let mut c: usize = 0;
        while c < line_len && line.get_char(c) != ':'
            invariant
                0 <= c <= line_len,
                line_len == line@.len(),
                colon_pos(line@, 0) == colon_pos(line@, c as int),
            decreases line_len - c,
        {
            c += 1;
        }
        proof {
            assert(colon_pos(line@, c as int) == c);
        }

        let ghost pair = line_pair::<T>(line@);
        let ghost prev_done = done;
        if c < line_len {
            let key = trimmed_str(line.substring_char(0, c));
            let val = trimmed_str(line.substring_char(c + 1, line_len));
            match T::parse_value(val) {
                Some(v) => {
                    proof {
                        assert(pair == Some((key@, v)));
                    }
                    out.push((key, v));
                    proof {
                        done = done.push((key@, v));
                    }
                },
                None => {
                    proof {
                        assert(pair.is_none());
                    }
                },
            }
        } else {
            proof {
                assert(pair.is_none());
            }
        }
        proof {
            let next = if e < n {
                e + 1 as int
            } else {
                e as int
            };
            assert(pairs_from::<T>(s@, i as int) == (match pair {
                Some(p) => seq![p] + pairs_from::<T>(s@, next),
                None => pairs_from::<T>(s@, next),
            }));
            if pair.is_some() {
                assert(done + pairs_from::<T>(s@, next) =~= prev_done + (seq![pair.unwrap()]
                    + pairs_from::<T>(s@, next)));
            }
        }
        if e < n {
            i = e + 1;
        } else {
            i = e;
        }
    }
    proof {
        assert(pairs_from::<T>(s@, n as int) =~= Seq::<(Seq<char>, T)>::empty());
        assert(done =~= all);
    }
    out
}

} // verus!
