//! A tokenizer for a tiny shell-like command syntax.

use crate::scan::skip_ws;
use crate::text::unicode_ws;
use vstd::prelude::*;

verus! {

/// One token of the command language.
#[derive(Debug)]
pub enum Token<'a> {
    /// A bare word.
    Word(&'a str),
    /// The `>` redirection operator.
    RedirectStdout,
    /// The `<` redirection operator.
    RedirectStdin,
    /// The `|` pipe operator.
    Pipe,
}

/// Whether `c` ends a word: whitespace or an operator character.
pub open spec fn is_word_break(c: char) -> bool {
    unicode_ws(c) || c == '|' || c == '<' || c == '>'
}

/// The end of the word starting at `i`: the first position at or after it
/// holding a word break, or the end of the text.
pub open spec fn word_end(t: Seq<char>, i: int) -> int
    decreases t.len() - i
        when 0 <= i <= t.len()
{
    if i >= t.len() || is_word_break(t[i]) {
        i
    } else {
        word_end(t, i + 1)
    }
}

proof fn lemma_word_end_bounds(t: Seq<char>, i: int)
    requires
        0 <= i <= t.len(),
    ensures
        i <= word_end(t, i) <= t.len(),
    decreases t.len() - i,
{
    if !(i >= t.len() || is_word_break(t[i])) {
        lemma_word_end_bounds(t, i + 1);
    }
}

/// Whether `c` ends a word.
fn word_break_char(c: char) -> (r: bool)
    ensures
        r == is_word_break(c),
{
    crate::text::is_ws_char(c) || c == '|' || c == '<' || c == '>'
}

/// Takes the next token off the front of `*s`, skipping leading
/// whitespace, or returns nothing when only whitespace is left. A word
/// runs to the next whitespace or operator character, which stays in
/// `*s`.
pub fn next_token<'a>(s: &mut &'a str) -> (r: Option<Token<'a>>)
    ensures
        ({
            let t = old(s)@;
            let a = skip_ws(t, 0);
            if a >= t.len() {
                r.is_none() && final(s)@ == t.skip(a)
            } else if t[a] == '>' {
                r == Some(Token::RedirectStdout) && final(s)@ == t.skip(a + 1)
            } else if t[a] == '<' {
                r == Some(Token::RedirectStdin) && final(s)@ == t.skip(a + 1)
            } else if t[a] == '|' {
                r == Some(Token::Pipe) && final(s)@ == t.skip(a + 1)
            } else {
                let e = word_end(t, a);
                r matches Some(tok) && (tok matches Token::Word(w) && w@ == t.subrange(a, e))
                    && final(s)@ == t.skip(e)
            }
        }),
{
    let cur: &'a str = *s;
    let ghost t = cur@;
    let n = cur.unicode_len();
    let mut a: usize = 0;
    while a < n && crate::text::is_ws_char(cur.get_char(a))
        invariant
            0 <= a <= n,
            n == t.len(),
            t == cur@,
            skip_ws(t, 0) == skip_ws(t, a as int),
        decreases n - a,
    {
        a += 1;
    }
    proof {
        assert(skip_ws(t, a as int) == a);
    }
    if a == n {
        *s = cur.substring_char(a, n);
        proof {
            assert(t.skip(a as int) =~= t.subrange(a as int, n as int));
        }
        return None;
    }
    let c = cur.get_char(a);
    proof {
        assert(t.skip(a + 1) =~= t.subrange(a + 1, n as int));
    }
    if c == '>' {
        *s = cur.substring_char(a + 1, n);
        Some(Token::RedirectStdout)
    } else if c == '<' {
        *s = cur.substring_char(a + 1, n);
        Some(Token::RedirectStdin)
    } else if c == '|' {
        *s = cur.substring_char(a + 1, n);
        Some(Token::Pipe)
    } else {
        let mut e: usize = a;
        while e < n && !word_break_char(cur.get_char(e))
            invariant
                a <= e <= n,
                n == t.len(),
                t == cur@,
                word_end(t, a as int) == word_end(t, e as int),
            decreases n - e,
        {
            e += 1;
        }
        proof {
            assert(word_end(t, e as int) == e);
            assert(t.skip(e as int) =~= t.subrange(e as int, n as int));
        }
        let word = cur.substring_char(a, e);
        *s = cur.substring_char(e, n);
        Some(Token::Word(word))
    }
}

} // verus!
