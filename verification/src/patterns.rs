//! Combinators describing sets of strings, and a matcher for them.

use crate::scan::is_digit_char;
use crate::text::unicode_alpha;
use vstd::prelude::*;

verus! {

/// A description of a set of strings.
pub enum Pattern {
    /// Any string at all.
    Anything,
    /// Exactly the given string.
    Exactly(String),
    /// Strings of alphabetic characters only, the empty one included.
    Alphabetic,
    /// Strings of ASCII digits only, the empty one included.
    AsciiDigits,
    /// Strings of at least that many characters.
    MinSize(usize),
    /// The empty string, or a match of the inner pattern.
    Maybe(Box<Pattern>),
    /// Strings the inner pattern turns down.
    Not(Box<Pattern>),
    /// Strings either pattern accepts.
    Or(Box<Pattern>, Box<Pattern>),
    /// Strings both patterns accept.
    And(Box<Pattern>, Box<Pattern>),
    /// Strings that split into a match of the first pattern followed by
    /// a match of the second.
    Chain(Box<Pattern>, Box<Pattern>),
}

/// Whether the pattern `p` accepts the string `s`.
pub open spec fn pat_accepts(p: Pattern, s: Seq<char>) -> bool
    decreases p,
{
    match p {
        Pattern::Anything => true,
        Pattern::Exactly(t) => s == t@,
        Pattern::Alphabetic => forall|i: int| 0 <= i < s.len() ==> unicode_alpha(#[trigger] s[i]),
        Pattern::AsciiDigits => forall|i: int| 0 <= i < s.len() ==> is_digit_char(#[trigger] s[i]),
        Pattern::MinSize(min) => s.len() >= min,
        Pattern::Maybe(inner) => s.len() == 0 || pat_accepts(*inner, s),
        Pattern::Not(inner) => !pat_accepts(*inner, s),
        Pattern::Or(p1, p2) => pat_accepts(*p1, s) || pat_accepts(*p2, s),
        Pattern::And(p1, p2) => pat_accepts(*p1, s) && pat_accepts(*p2, s),
        Pattern::Chain(p1, p2) => exists|i: int|
            #![trigger s.take(i), s.skip(i)]
            0 <= i <= s.len() && pat_accepts(*p1, s.take(i)) && pat_accepts(*p2, s.skip(i)),
    }
}

/// A pattern accepting any string.
pub fn anything() -> (r: Pattern)
    ensures
        r == Pattern::Anything,
{
    Pattern::Anything
}

/// A pattern accepting exactly `to_match`.
pub fn exactly(to_match: &str) -> (r: Pattern)
    ensures
        r matches Pattern::Exactly(t) && t@ == to_match@,
{
    Pattern::Exactly(String::from_str(to_match))
}

/// A pattern accepting strings of alphabetic characters.
pub fn alphabetic() -> (r: Pattern)
    ensures
        r == Pattern::Alphabetic,
{
    Pattern::Alphabetic
}

/// A pattern accepting strings of ASCII digits.
pub fn ascii_digits() -> (r: Pattern)
    ensures
        r == Pattern::AsciiDigits,
{
    Pattern::AsciiDigits
}

/// A pattern accepting strings of at least `min` characters.
pub fn min_size(min: usize) -> (r: Pattern)
    ensures
        r == Pattern::MinSize(min),
{
    Pattern::MinSize(min)
}

/// A pattern accepting the empty string besides what `pattern` accepts.
pub fn maybe(pattern: Pattern) -> (r: Pattern)
    ensures
        r == Pattern::Maybe(Box::new(pattern)),
{
    Pattern::Maybe(Box::new(pattern))
}

/// A pattern accepting exactly what `pattern` turns down.
pub fn not(pattern: Pattern) -> (r: Pattern)
    ensures
        r == Pattern::Not(Box::new(pattern)),
{
    Pattern::Not(Box::new(pattern))
}

/// A pattern accepting what either argument accepts.
pub fn or(pattern1: Pattern, pattern2: Pattern) -> (r: Pattern)
    ensures
        r == Pattern::Or(Box::new(pattern1), Box::new(pattern2)),
{
    Pattern::Or(Box::new(pattern1), Box::new(pattern2))
}

/// A pattern accepting what both arguments accept.
pub fn and(pattern1: Pattern, pattern2: Pattern) -> (r: Pattern)
    ensures
        r == Pattern::And(Box::new(pattern1), Box::new(pattern2)),
{
    Pattern::And(Box::new(pattern1), Box::new(pattern2))
}

/// A pattern accepting strings made of a match of the first argument
/// followed by a match of the second.
pub fn chain(pattern1: Pattern, pattern2: Pattern) -> (r: Pattern)
    ensures
        r == Pattern::Chain(Box::new(pattern1), Box::new(pattern2)),
{
    Pattern::Chain(Box::new(pattern1), Box::new(pattern2))
}

impl Pattern {
    /// Whether this pattern accepts `s`.
    #[verifier::loop_isolation(false)]
    pub fn is_match(&self, s: &str) -> (r: bool)
        ensures
            r == pat_accepts(*self, s@),
        decreases *self,
    {
        match self {
            Pattern::Anything => true,
            Pattern::Exactly(t) => crate::text::str_eq(s, t.as_str()),
            Pattern::Alphabetic => {
                let n = s.unicode_len();
                let mut i: usize = 0;
                while i < n
                    invariant
                        0 <= i <= n,
                        n == s@.len(),
                        forall|j: int| 0 <= j < i ==> unicode_alpha(#[trigger] s@[j]),
                    decreases n - i,
                {
                    if !crate::text::is_alpha_char(s.get_char(i)) {
                        return false;
                    }
                    i += 1;
                }
                true
            },
            Pattern::AsciiDigits => {
                let n = s.unicode_len();
                let mut i: usize = 0;
                while i < n
                    invariant
                        0 <= i <= n,
                        n == s@.len(),
                        forall|j: int| 0 <= j < i ==> is_digit_char(#[trigger] s@[j]),
                    decreases n - i,
                {
                    let cv = s.get_char(i) as u32;
                    if cv < 48 || cv > 57 {
                        return false;
                    }
                    i += 1;
                }
                true
            },
            Pattern::MinSize(min) => s.unicode_len() >= *min,
            Pattern::Maybe(inner) => s.unicode_len() == 0 || inner.is_match(s),
            Pattern::Not(inner) => !inner.is_match(s),
            Pattern::Or(p1, p2) => p1.is_match(s) || p2.is_match(s),
            Pattern::And(p1, p2) => p1.is_match(s) && p2.is_match(s),
            Pattern::Chain(p1, p2) => {
                let n = s.unicode_len();
                let mut i: usize = 0;
                loop
                    invariant
                        0 <= i <= n,
                        n == s@.len(),
                        forall|j: int|
                            #![trigger s@.take(j), s@.skip(j)]
                            0 <= j < i ==> !(pat_accepts(**p1, s@.take(j)) && pat_accepts(
                                **p2,
                                s@.skip(j),
                            )),
                    decreases n - i,
                {
                    let head = s.substring_char(0, i);
                    let tail = s.substring_char(i, n);
                    if p1.is_match(head) && p2.is_match(tail) {
                        proof {
                            assert(head@ == s@.take(i as int));
                            assert(tail@ == s@.skip(i as int));
                            assert(pat_accepts(**p1, s@.take(i as int)));
                            assert(pat_accepts(**p2, s@.skip(i as int)));
                            assert(pat_accepts(Pattern::Chain(*p1, *p2), s@));
                            assert(*self == Pattern::Chain(*p1, *p2));
                            assert(pat_accepts(*self, s@));
                        }
                        return true;
                    }
                    proof {
                        assert(head@ == s@.take(i as int));
                        assert(tail@ == s@.skip(i as int));
                    }
                    if i == n {
                        proof {
                            assert forall|j: int|
                                #![trigger s@.take(j), s@.skip(j)]
                                0 <= j <= n implies !(pat_accepts(**p1, s@.take(j)) && pat_accepts(
                                **p2,
                                s@.skip(j),
                            )) by {}
                        }
                        break ;
                    }
                    i += 1;
                }
                proof {
                    assert(*self == Pattern::Chain(*p1, *p2));
                    assert(!pat_accepts(Pattern::Chain(*p1, *p2), s@)) by {
                        if pat_accepts(Pattern::Chain(*p1, *p2), s@) {
                            let j = choose|j: int|
                                #![trigger s@.take(j), s@.skip(j)]
                                0 <= j <= s@.len() && pat_accepts(**p1, s@.take(j)) && pat_accepts(
                                    **p2,
                                    s@.skip(j),
                                );
                            assert(!(pat_accepts(**p1, s@.take(j)) && pat_accepts(
                                **p2,
                                s@.skip(j),
                            )));
                        }
                    }
                    assert(!pat_accepts(*self, s@));
                }
                false
            },
        }
    }
}

} // verus!
