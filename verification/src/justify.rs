//! Laying words out as justified text of a fixed column width.

use vstd::prelude::*;

verus! {

/// The display width of a string, in terminal columns.
pub uninterp spec fn width_of(s: Seq<char>) -> nat;

/// Relies on unicode_width::UnicodeWidthStr::width: the total display
/// width of the string, a function of its characters alone.
#[verifier::external_body]
pub(crate) fn display_width(s: &str) -> (w: usize)
    ensures
        w == width_of(s@),
{
    unicode_width::UnicodeWidthStr::width(s)
}

/// The summed display widths of `ws`.
pub open spec fn words_width(ws: Seq<String>) -> int
    decreases ws.len(),
{
    if ws.len() == 0 {
        0
    } else {
        width_of(ws[0]@) + words_width(ws.skip(1))
    }
}

/// A run of `n` spaces.
pub open spec fn spaces(n: int) -> Seq<char> {
    Seq::new(n as nat, |i: int| ' ')
}

/// The gaps and words that follow the first word of a justified line:
/// before each following word stands a gap of `normal` spaces, one more
/// for the first `extra` gaps.
pub open spec fn line_rest(ws: Seq<String>, g: int, normal: int, extra: int) -> Seq<char>
    decreases ws.len() - g,
{
    if g < 0 || g >= ws.len() - 1 {
        Seq::empty()
    } else {
        spaces(
            normal + if g < extra {
                1int
            } else {
                0int
            },
        ) + ws[g + 1]@ + line_rest(ws, g + 1, normal, extra)
    }
}

/// The words of `ws` spread to fill `columns`: the spare columns are
/// dealt into the gaps, one more to each of the leftmost gaps. A single
/// word stands alone.
pub open spec fn spec_justified(ws: Seq<String>, columns: int) -> Seq<char> {
    if ws.len() == 1 {
        ws[0]@
    } else {
        let gap_count = ws.len() - 1;
        let total_gaps = columns - words_width(ws);
        ws[0]@ + line_rest(ws, 0, total_gaps / gap_count, total_gaps % gap_count)
    }
}

proof fn lemma_words_width_take(ws: Seq<String>, i: int)
    requires
        0 <= i < ws.len(),
    ensures
        words_width(ws.take(i + 1)) == words_width(ws.take(i)) + width_of(ws[i]@),
        words_width(ws.take(i)) >= 0,
    decreases i,
{
    if i == 0 {
        assert(ws.take(0) =~= Seq::<String>::empty());
        assert(ws.take(1) =~= Seq::<String>::empty().push(ws[0]));
        assert(ws.take(1).skip(1) =~= Seq::<String>::empty());
    } else {
        lemma_words_width_take(ws.skip(1), i - 1);
        assert(ws.take(i + 1).skip(1) =~= ws.skip(1).take(i));
        assert(ws.take(i).skip(1) =~= ws.skip(1).take(i - 1));
        assert(ws.take(i + 1)[0] == ws[0]);
        assert(ws.take(i)[0] == ws[0]);
        assert(ws.skip(1)[i - 1] == ws[i]);
    }
}

proof fn lemma_words_width_whole(ws: Seq<String>)
    ensures
        words_width(ws) >= 0,
        ws.len() > 0 ==> words_width(ws) == words_width(ws.take(ws.len() as int)),
    decreases ws.len(),
{
    if ws.len() > 0 {
        lemma_words_width_whole(ws.skip(1));
        assert(ws.take(ws.len() as int) =~= ws);
    }
}

/// The words spread out to fill `columns` display columns: single
/// spaces, plus the spare columns dealt one by one into the gaps from
/// the left. The words must fit, except that a word on its own may be
/// as wide as it likes.
pub fn justified_line(words: &[String], columns: usize) -> (r: String)
    requires
        words@.len() >= 1,
        words@.len() >= 2 ==> words_width(words@) <= columns,
    ensures
        r@ == spec_justified(words@, columns as int),
{
    let ghost ws = words@;
    proof {
        lemma_words_width_whole(ws);
    }
    let n = words.len();
    let mut width: usize = 0;
    let mut i: usize = 0;
    while i < n
        invariant
            0 <= i <= n,
            n == ws.len(),
            ws == words@,
            1 <= n,
            n >= 2 ==> words_width(ws) <= columns,
            width == words_width(ws.take(i as int)),
        decreases n - i,
    {
        proof {
            lemma_words_width_take(ws, i as int);
            if n >= 2 {
                lemma_width_prefix_le(ws, i + 1);
            }
        }
        width = width + display_width(words[i].as_str());
        i += 1;
    }
    proof {
        assert(ws.take(n as int) =~= ws);
    }

    if n == 1 {
        return words[0].clone();
    }

    let gap_count = n - 1;
    let total_gaps = columns - width;
    let normal_gap = total_gaps / gap_count;
    let one_more = total_gaps % gap_count;
    let ghost normal = normal_gap as int;
    let ghost extra = one_more as int;
    proof {
        broadcast use vstd::arithmetic::div_mod::lemma_mod_pos_bound;

        assert(one_more < gap_count);
    }

    let mut out: String = words[0].clone();
    let mut g: usize = 0;
    while g < gap_count
        invariant
            0 <= g <= gap_count,
            gap_count == ws.len() - 1,
            gap_count >= 1,
            ws == words@,
            normal == normal_gap as int,
            extra == one_more as int,
            normal_gap == total_gaps / gap_count,
            one_more == total_gaps % gap_count,
            one_more < gap_count,
            spec_justified(ws, columns as int) == out@ + line_rest(ws, g as int, normal, extra),
            spec_justified(ws, columns as int) == ws[0]@ + line_rest(ws, 0, normal, extra),
        decreases gap_count - g,
    {
        let mut gap_size = normal_gap;
        if g < one_more {
            proof {
                assert(gap_count >= 2);
                assert(normal_gap < usize::MAX) by (nonlinear_arith)
                    requires
                        normal_gap == total_gaps / gap_count,
                        gap_count >= 2,
                        total_gaps <= usize::MAX,
                {}
            }
            gap_size += 1;
        }
        let ghost this_gap = spaces(
            normal + if (g as int) < extra {
                1int
            } else {
                0int
            },
        );
        let ghost before = out@;
        let mut k: usize = 0;
        while k < gap_size
            invariant
                0 <= k <= gap_size,
                gap_size == this_gap.len(),
                forall|j: int| 0 <= j < this_gap.len() ==> #[trigger] this_gap[j] == ' ',
                out@ == before + this_gap.take(k as int),
            decreases gap_size - k,
        {
            out.append(" ");
            proof {
                reveal_strlit(" ");
                assert(" "@ =~= seq![' ']);
                assert(this_gap.take(k + 1) =~= this_gap.take(k as int).push(' '));
            }
            k += 1;
        }
        proof {
            assert(this_gap.take(gap_size as int) =~= this_gap);
        }
        out.append(words[g + 1].as_str());
        proof {
            assert(line_rest(ws, g as int, normal, extra) == this_gap + ws[g + 1]@ + line_rest(
                ws,
                g + 1,
                normal,
                extra,
            ));
            assert((before + this_gap) + ws[g + 1]@ =~= before + (this_gap + ws[g + 1]@));
            assert(out@ + line_rest(ws, g + 1, normal, extra) =~= before + (this_gap + ws[g + 1]@
                + line_rest(ws, g + 1, normal, extra)));
            assert(before + (this_gap + ws[g + 1]@ + line_rest(ws, g + 1, normal, extra)) =~= before
                + line_rest(ws, g as int, normal, extra));
        }
        g += 1;
    }
    proof {
        assert(line_rest(ws, gap_count as int, normal, extra) =~= Seq::<char>::empty());
        assert(out@ + Seq::<char>::empty() =~= out@);
    }
    out
}

/// The words from `start` to `end` joined with single spaces.
pub open spec fn joined(ws: Seq<String>, start: int, end: int) -> Seq<char>
    decreases end - start,
{
    if start >= end {
        Seq::empty()
    } else if end == start + 1 {
        ws[start]@
    } else {
        joined(ws, start, end - 1) + seq![' '] + ws[end - 1]@
    }
}

/// The lines of a paragraph, greedily filled: words are taken while the
/// line fits in `columns`, full lines are justified, a word too wide for
/// an empty line stands alone, and what is left at the end is joined
/// with single spaces. `tw` carries the width of the open line's words,
/// each with one following space.
pub open spec fn para_lines(ws: Seq<String>, start: int, end: int, tw: int, columns: int) -> Seq<
    Seq<char>,
>
    decreases 2 * ws.len() - start - end
        when 0 <= start <= end <= ws.len()
{
    if end >= ws.len() {
        seq![joined(ws, start, end)]
    } else {
        let word_w = width_of(ws[end]@) + 1;
        if tw + word_w - 1 <= columns {
            para_lines(ws, start, end + 1, tw + word_w, columns)
        } else if start == end {
            seq![ws[end]@] + para_lines(ws, end + 1, end + 1, 0, columns)
        } else {
            seq![spec_justified(ws.subrange(start, end), columns)] + para_lines(
                ws,
                end,
                end,
                0,
                columns,
            )
        }
    }
}

/// The lines of the paragraph written by `words` at width `columns`.
pub fn paragraph_lines(words: &[String], columns: usize) -> (r: Vec<String>)
    ensures
        r@.len() == para_lines(words@, 0, 0, 0, columns as int).len(),
        forall|k: int|
            0 <= k < r@.len() ==> (#[trigger] r@[k])@ == para_lines(words@, 0, 0, 0, columns as int)[k],
{
    let ghost ws = words@;
    let ghost all = para_lines(ws, 0, 0, 0, columns as int);
    let ghost mut done = Seq::<Seq<char>>::empty();
    let n = words.len();
    let mut out: Vec<String> = Vec::new();
    let mut start: usize = 0;
    let mut end: usize = 0;
    let mut tw: u128 = 0;
    proof {
        assert(done + para_lines(ws, 0, 0, 0, columns as int) =~= all);
    }
    while end < n
        invariant
            0 <= start <= end <= n,
            n == ws.len(),
            ws == words@,
            all == para_lines(ws, 0, 0, 0, columns as int),
            done + para_lines(ws, start as int, end as int, tw as int, columns as int) == all,
            out@.len() == done.len(),
            forall|k: int| 0 <= k < done.len() ==> (#[trigger] out@[k])@ == done[k],
            start == end ==> tw == 0,
            tw == words_width(ws.subrange(start as int, end as int)) + (end - start),
            end > start ==> tw <= columns + 1,
        decreases 2 * n - start - end,
    {
        let word_w: u128 = display_width(words[end].as_str()) as u128 + 1;
        if tw + word_w - 1 <= columns as u128 {
            proof {
                assert(ws.subrange(start as int, end + 1).drop_last() =~= ws.subrange(
                    start as int,
                    end as int,
                ));
                lemma_words_width_snoc(ws, start as int, end as int);
            }
            tw = tw + word_w;
            end += 1;
        } else if start == end {
            let ghost prev = done;
            out.push(words[end].clone());
            proof {
                done = done.push(ws[end as int]@);
                assert(done + para_lines(ws, end + 1, end + 1, 0, columns as int) =~= prev + (seq![
                    ws[end as int]@,
                ] + para_lines(ws, end + 1, end + 1, 0, columns as int)));
                assert(ws.subrange(end + 1, end + 1) =~= Seq::<String>::empty());
            }
            end += 1;
            start = end;
            tw = 0;
        } else {
            let line_words = vstd::slice::slice_subrange(words, start, end);
            proof {
                assert(line_words@ == ws.subrange(start as int, end as int));
                if end - start >= 2 {
                    assert(words_width(line_words@) <= columns);
                }
            }
            let line = justified_line(line_words, columns);
            let ghost prev = done;
            out.push(line);
            proof {
                done = done.push(spec_justified(ws.subrange(start as int, end as int), columns as int));
                assert(done + para_lines(ws, end as int, end as int, 0, columns as int) =~= prev
                    + (seq![spec_justified(ws.subrange(start as int, end as int), columns as int)]
                    + para_lines(ws, end as int, end as int, 0, columns as int)));
                assert(ws.subrange(end as int, end as int) =~= Seq::<String>::empty());
            }
            start = end;
            tw = 0;
        }
    }

    // Whatever is left makes the last line, joined with single spaces.
    let mut line = String::new();
    let mut j: usize = start;
    if start < n {
        line.append(words[start].as_str());
        j = start + 1;
    }
    while j < n
        invariant
            start < j <= n || (start == j && start >= n),
            start <= n,
            n == ws.len(),
            ws == words@,
            line@ == joined(ws, start as int, j as int),
        decreases n - j,
    {
        line.append(" ");
        line.append(words[j].as_str());
        proof {
            reveal_strlit(" ");
            assert(" "@ =~= seq![' ']);
            if j == start {
                assert(false);
            }
        }
        j += 1;
    }
    proof {
        if start >= n {
            assert(joined(ws, start as int, n as int) =~= Seq::<char>::empty());
            assert(line@ == joined(ws, start as int, n as int));
        }
        assert(para_lines(ws, start as int, n as int, tw as int, columns as int) == seq![
            joined(ws, start as int, n as int),
        ]);
    }
    let ghost prev = done;
    out.push(line);
    proof {
        done = done.push(joined(ws, start as int, n as int));
        assert(done =~= prev + seq![joined(ws, start as int, n as int)]);
        assert(done =~= all);
    }
    out
}

proof fn lemma_words_width_snoc(ws: Seq<String>, start: int, end: int)
    requires
        0 <= start <= end < ws.len(),
    ensures
        words_width(ws.subrange(start, end + 1)) == words_width(ws.subrange(start, end)) + width_of(
            ws[end]@,
        ),
    decreases end - start,
{
    if start == end {
        assert(ws.subrange(start, end) =~= Seq::<String>::empty());
        assert(ws.subrange(start, end + 1) =~= seq![ws[end]]);
        assert(seq![ws[end]].skip(1) =~= Seq::<String>::empty());
    } else {
        lemma_words_width_snoc(ws, start + 1, end);
        assert(ws.subrange(start, end + 1).skip(1) =~= ws.subrange(start + 1, end + 1));
        assert(ws.subrange(start, end).skip(1) =~= ws.subrange(start + 1, end));
        assert(ws.subrange(start, end + 1)[0] == ws[start]);
        assert(ws.subrange(start, end)[0] == ws[start]);
    }
}

proof fn lemma_width_prefix_le(ws: Seq<String>, i: int)
    requires
        0 <= i <= ws.len(),
    ensures
        words_width(ws.take(i)) <= words_width(ws),
    decreases ws.len() - i,
{
    if i < ws.len() {
        lemma_words_width_take(ws, i);
        lemma_width_prefix_le(ws, i + 1);
    } else {
        assert(ws.take(i) =~= ws);
    }
}

} // verus!
