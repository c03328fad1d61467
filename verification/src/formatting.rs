//! A tiny `%` formatter: each `%` of the format string is replaced by
//! the next value.

use vstd::prelude::*;
use vstd::string::StringExecFns;

verus! {

/// Returned when a value cannot be written out.
#[derive(Debug)]
pub struct FormatError;

/// The decimal digits of `n`, without a leading zero.
pub open spec fn dec_digits(n: int) -> Seq<char>
    decreases n
        when n >= 0
{
    if n <= 0 {
        Seq::empty()
    } else {
        dec_digits(n / 10).push((48 + n % 10) as char)
    }
}

/// The decimal writing of `n`: `0` for zero, no leading zero otherwise.
pub open spec fn dec_rep(n: int) -> Seq<char> {
    if n == 0 {
        seq!['0']
    } else {
        dec_digits(n)
    }
}

/// Values that can write themselves out as text.
pub trait Print {
    /// The text the value writes.
    spec fn spec_print(&self) -> Seq<char>;

    /// Appends the value's text to `target`.
    fn print(&self, target: &mut String) -> (r: Result<(), FormatError>)
        ensures
            r.is_ok() ==> final(target)@ == old(target)@ + self.spec_print(),
    ;
}

/// Appends the digit `d` to `target`.
pub(crate) fn append_digit(target: &mut String, d: u32)
    requires
        d < 10,
    ensures
        final(target)@ == old(target)@ + seq![(48 + d as int) as char],
{
    let piece: &str = if d == 0 {
        "0"
    } else if d == 1 {
        "1"
    } else if d == 2 {
        "2"
    } else if d == 3 {
        "3"
    } else if d == 4 {
        "4"
    } else if d == 5 {
        "5"
    } else if d == 6 {
        "6"
    } else if d == 7 {
        "7"
    } else if d == 8 {
        "8"
    } else {
        "9"
    };
    proof {
        reveal_strlit("0");
        reveal_strlit("1");
        reveal_strlit("2");
        reveal_strlit("3");
        reveal_strlit("4");
        reveal_strlit("5");
        reveal_strlit("6");
        reveal_strlit("7");
        reveal_strlit("8");
        reveal_strlit("9");
        assert(piece@ =~= seq![(48 + d as int) as char]);
    }
    target.append(piece);
}

/// Appends the decimal digits of `n`, most significant first; nothing
/// at all for zero.
pub(crate) fn push_decimal(target: &mut String, n: u32)
    ensures
        final(target)@ == old(target)@ + dec_digits(n as int),
    decreases n,
{
    if n == 0 {
        proof {
            assert(old(target)@ + dec_digits(0) =~= old(target)@);
        }
        return ;
    }
    push_decimal(target, n / 10);
    append_digit(target, n % 10);
    proof {
        assert(old(target)@ + dec_digits(n as int) =~= (old(target)@ + dec_digits(n as int / 10))
            + seq![(48 + n as int % 10) as char]);
    }
}

impl Print for u32 {
    /// A `u32` writes its decimal digits.
    open spec fn spec_print(&self) -> Seq<char> {
        dec_rep(*self as int)
    }

    fn print(&self, target: &mut String) -> (r: Result<(), FormatError>)
        ensures
            r.is_ok(),
            final(target)@ == old(target)@ + self.spec_print(),
    {
        if *self == 0 {
            append_digit(target, 0);
            return Ok(());
        }
        push_decimal(target, *self);
        Ok(())
    }
}

impl Print for String {
    /// A string writes its own characters.
    open spec fn spec_print(&self) -> Seq<char> {
        self@
    }

    fn print(&self, target: &mut String) -> (r: Result<(), FormatError>)
        ensures
            r.is_ok(),
            final(target)@ == old(target)@ + self.spec_print(),
    {
        target.append(self.as_str());
        Ok(())
    }
}

/// One value a `%` can stand for.
pub enum FormatValue {
    /// A number, written in decimal.
    Num(u32),
    /// A piece of text, written as it is.
    Text(String),
}

/// The text a format value writes.
pub open spec fn val_text(v: FormatValue) -> Seq<char> {
    match v {
        FormatValue::Num(n) => dec_rep(n as int),
        FormatValue::Text(s) => s@,
    }
}

impl Print for FormatValue {
    /// A format value writes its number or its text.
    open spec fn spec_print(&self) -> Seq<char> {
        val_text(*self)
    }

    fn print(&self, target: &mut String) -> (r: Result<(), FormatError>)
        ensures
            r.is_ok(),
            final(target)@ == old(target)@ + self.spec_print(),
    {
        match self {
            FormatValue::Num(n) => n.print(target),
            FormatValue::Text(s) => s.print(target),
        }
    }
}

/// The position of the first `%` of `t` at or after `j`, or the end.
pub open spec fn pct_pos(t: Seq<char>, j: int) -> int
    decreases t.len() - j
        when 0 <= j <= t.len()
{
    if j >= t.len() || t[j] == '%' {
        j
    } else {
        pct_pos(t, j + 1)
    }
}

proof fn lemma_pct_pos_bounds(t: Seq<char>, j: int)
    requires
        0 <= j <= t.len(),
    ensures
        j <= pct_pos(t, j) <= t.len(),
    decreases t.len() - j,
{
    if !(j >= t.len() || t[j] == '%') {
        lemma_pct_pos_bounds(t, j + 1);
    }
}

/// How many `%` markers `t` holds.
pub open spec fn percent_count(t: Seq<char>) -> int
    decreases t.len()
        via percent_count_decreases
{
    if pct_pos(t, 0) >= t.len() {
        0
    } else {
        1 + percent_count(t.skip(pct_pos(t, 0) + 1))
    }
}

#[via_fn]
proof fn percent_count_decreases(t: Seq<char>) {
    lemma_pct_pos_bounds(t, 0);
}

proof fn lemma_percent_count_nonneg(t: Seq<char>)
    ensures
        percent_count(t) >= 0,
    decreases t.len(),
{
    lemma_pct_pos_bounds(t, 0);
    if pct_pos(t, 0) < t.len() {
        lemma_percent_count_nonneg(t.skip(pct_pos(t, 0) + 1));
    }
}

/// The format string `t` with each `%` replaced by the text of the next
/// value, starting at value `vi`.
pub open spec fn spec_format(t: Seq<char>, vals: Seq<FormatValue>, vi: int) -> Seq<char>
    decreases t.len()
        via spec_format_decreases
{
    let p = pct_pos(t, 0);
    if p >= t.len() {
        t
    } else {
        t.take(p) + val_text(vals[vi]) + spec_format(t.skip(p + 1), vals, vi + 1)
    }
}

#[via_fn]
proof fn spec_format_decreases(t: Seq<char>, vals: Seq<FormatValue>, vi: int) {
    lemma_pct_pos_bounds(t, 0);
}

/// Writes `s` into `target`, replacing each `%` with the next value.
/// There must be a value for every `%`.
fn format_with(s: &str, values: &[FormatValue], target: &mut String) -> (r: Result<
    (),
    FormatError,
>)
    requires
        percent_count(s@) <= values@.len(),
    ensures
        r.is_ok(),
        final(target)@ == old(target)@ + spec_format(s@, values@, 0),
{
    let ghost out0 = target@;
    let mut cur: &str = s;
    let mut vi: usize = 0;
    proof {
        assert(spec_format(s@, values@, 0) == spec_format(cur@, values@, vi as int));
    }
    loop
        invariant
            vi <= values@.len(),
            percent_count(cur@) + vi <= values@.len(),
            target@ + spec_format(cur@, values@, vi as int) == out0 + spec_format(s@, values@, 0),
            out0 == old(target)@,
        decreases cur@.len(),
    {
        let n = cur.unicode_len();
        let mut p: usize = 0;
        while p < n && cur.get_char(p) != '%'
            invariant
                0 <= p <= n,
                n == cur@.len(),
                pct_pos(cur@, 0) == pct_pos(cur@, p as int),
            decreases n - p,
        {
            p += 1;
        }
        proof {
            assert(pct_pos(cur@, p as int) == p);
        }
        if p == n {
            let ghost pre = target@;
            target.append(cur);
            proof {
                assert(spec_format(cur@, values@, vi as int) == cur@);
                assert(target@ == pre + cur@);
                assert(target@ == out0 + spec_format(s@, values@, 0));
            }
            return Ok(());
        }
        // A marker: write what stands before it, then the next value.
        proof {
            assert(percent_count(cur@) == 1 + percent_count(cur@.skip(p + 1)));
            lemma_percent_count_nonneg(cur@.skip(p + 1));
            assert(vi < values@.len());
            lemma_pct_pos_bounds(cur@.skip(p + 1), 0);
        }
        let before = cur.substring_char(0, p);
        target.append(before);
        proof {
            assert(before@ == cur@.take(p as int));
        }
        let value = &values[vi];
        let res = value.print(target);
        proof {
            assert(res.is_ok());
        }
        let ghost prev = cur@;
        cur = cur.substring_char(p + 1, n);
        vi = vi + 1;
        proof {
            assert(spec_format(prev, values@, vi - 1) == prev.take(p as int) + val_text(
                values@[vi - 1],
            ) + spec_format(prev.skip(p + 1), values@, vi as int));
            assert(cur@ == prev.skip(p + 1));
        }
    }
}

/// The format string `s` with each `%` replaced by the text of the next
/// value. There must be a value for every `%`.
pub fn format_string(s: &str, values: &[FormatValue]) -> (r: Result<String, FormatError>)
    requires
        percent_count(s@) <= values@.len(),
    ensures
        r.is_ok(),
        r.unwrap()@ == spec_format(s@, values@, 0),
{
    let mut buffer = String::new();
    let res = format_with(s, values, &mut buffer);
    proof {
        assert(res.is_ok());
    }
    Ok(buffer)
}

} // verus!
