//! Wildcard pattern matching over byte strings.
//!
//! A pattern is an arbitrary byte string in which every `*` byte is a
//! wildcard standing for any run of bytes, including the empty run; there
//! is no escape mechanism. All other pattern bytes match one query byte
//! each, positionally and exactly.

use vstd::prelude::*;

verus! {

/// The wildcard byte, `*`.
pub const STAR: u8 = 42;

/// Whether the query `q` matches the pattern `p`.
///
/// An empty pattern matches only the empty query. A leading `*` either
/// consumes nothing (match the rest of the pattern) or consumes one query
/// byte and stays; a leading literal must equal the first query byte.
pub open spec fn wild_match(q: Seq<u8>, p: Seq<u8>) -> bool
    decreases p.len(), q.len(),
{
    if p.len() == 0 {
        q.len() == 0
    } else if p[0] == STAR {
        wild_match(q, p.skip(1)) || (q.len() > 0 && wild_match(q.skip(1), p))
    } else {
        q.len() > 0 && q[0] == p[0] && wild_match(q.skip(1), p.skip(1))
    }
}

/// A run of `n` wildcard bytes.
pub open spec fn star_run(n: nat) -> Seq<u8> {
    Seq::new(n, |i: int| STAR)
}

/// Two consecutive wildcards accept exactly what a single one accepts.
proof fn lemma_double_star(q: Seq<u8>, rest: Seq<u8>)
    ensures
        wild_match(q, seq![STAR, STAR] + rest) == wild_match(q, seq![STAR] + rest),
    decreases q.len(),
{
    let s2 = seq![STAR, STAR] + rest;
    let s1 = seq![STAR] + rest;
    assert(s2.skip(1) =~= s1);
    assert(s1.skip(1) =~= rest);
    if q.len() > 0 {
        lemma_double_star(q.skip(1), rest);
    }
}

/// A pattern that is a single wildcard matches every query.
///
/// This is the general half of the claim that `*` accepts all inputs.
pub proof fn lemma_star_matches_all(q: Seq<u8>)
    ensures
        wild_match(q, seq![STAR]),
    decreases q.len(),
{
    let p = seq![STAR];
    assert(p.skip(1) =~= Seq::<u8>::empty());
    assert(wild_match(q, Seq::<u8>::empty()) == (q.len() == 0));
    if q.len() > 0 {
        lemma_star_matches_all(q.skip(1));
    }
}

/// A wildcard followed by `rest` matches `q` exactly when `rest` matches
/// some suffix of `q`: the wildcard consumes the corresponding prefix.
proof fn lemma_star_split(q: Seq<u8>, rest: Seq<u8>)
    ensures
        wild_match(q, seq![STAR] + rest) <==> exists|j: int|
            0 <= j <= q.len() && wild_match(q.skip(j), rest),
    decreases q.len(),
{
    let p = seq![STAR] + rest;
    assert(p.skip(1) =~= rest);
    assert(q.skip(0) =~= q);
    if q.len() > 0 {
        lemma_star_split(q.skip(1), rest);
        if wild_match(q, p) {
            if wild_match(q, rest) {
                assert(wild_match(q.skip(0), rest));
            } else {
                let j = choose|j: int| 0 <= j <= q.skip(1).len() && wild_match(
                    q.skip(1).skip(j),
                    rest,
                );
                assert(q.skip(1).skip(j) =~= q.skip(j + 1));
                assert(wild_match(q.skip(j + 1), rest));
            }
        }
        if exists|j: int| 0 <= j <= q.len() && wild_match(q.skip(j), rest) {
            let j = choose|j: int| 0 <= j <= q.len() && wild_match(q.skip(j), rest);
            if j == 0 {
                assert(wild_match(q, rest));
            } else {
                assert(q.skip(1).skip(j - 1) =~= q.skip(j));
                assert(wild_match(q.skip(1), p));
            }
        }
    }
}

/// Every query matches itself when used as a pattern.
///
/// Wildcard-free queries match literally; a `*` in the query is itself
/// matched by the corresponding `*` of the pattern consuming one byte.
pub proof fn lemma_match_self(q: Seq<u8>)
    ensures
        wild_match(q, q),
    decreases q.len(),
{
    if q.len() > 0 {
        lemma_match_self(q.skip(1));
        if q[0] == STAR {
            // The pattern's leading `*` absorbs the query's leading `*`,
            // and the rest matches itself.
            assert(wild_match(q.skip(1), q.skip(1)));
            assert(wild_match(q.skip(1), q));
        }
    }
}

/// The empty query matches exactly the patterns made of wildcards alone.
pub proof fn lemma_empty_query(p: Seq<u8>)
    ensures
        wild_match(Seq::<u8>::empty(), p) <==> (forall|k: int|
            0 <= k < p.len() ==> p[k] == STAR),
    decreases p.len(),
{
    let e = Seq::<u8>::empty();
    if p.len() > 0 {
        lemma_empty_query(p.skip(1));
        assert(forall|k: int| 0 <= k < p.skip(1).len() ==> #[trigger] p.skip(1)[k] == p[k + 1]);
        if p[0] == STAR {
            assert(wild_match(e, p) == wild_match(e, p.skip(1)));
            if wild_match(e, p) {
                assert forall|k: int| 0 <= k < p.len() implies p[k] == STAR by {
                    if k > 0 {
                        assert(p.skip(1)[k - 1] == p[k]);
                    }
                }
            } else {
                assert(!(forall|k: int| 0 <= k < p.skip(1).len() ==> p.skip(1)[k] == STAR));
                let k = choose|k: int|
                    0 <= k < p.skip(1).len() && p.skip(1)[k] != STAR;
                assert(p[k + 1] != STAR);
            }
        } else {
            assert(!wild_match(e, p));
            assert(p[0] != STAR);
        }
    }
}

/// Rewriting the results of `lemma_double_star` under an arbitrary pattern
/// prefix `a`: patterns equivalent on every query stay equivalent there.
proof fn lemma_prefix_congruence(q: Seq<u8>, a: Seq<u8>, p1: Seq<u8>, p2: Seq<u8>)
    requires
        forall|qq: Seq<u8>| wild_match(qq, p1) == wild_match(qq, p2),
    ensures
        wild_match(q, a + p1) == wild_match(q, a + p2),
    decreases a.len(), q.len(),
{
    if a.len() == 0 {
        assert(a + p1 =~= p1);
        assert(a + p2 =~= p2);
    } else {
        assert((a + p1).skip(1) =~= a.skip(1) + p1);
        assert((a + p2).skip(1) =~= a.skip(1) + p2);
        assert((a + p1)[0] == a[0]);
        assert((a + p2)[0] == a[0]);
        lemma_prefix_congruence(q, a.skip(1), p1, p2);
        if a[0] == STAR {
            if q.len() > 0 {
                lemma_prefix_congruence(q.skip(1), a, p1, p2);
            }
        } else {
            if q.len() > 0 {
                lemma_prefix_congruence(q.skip(1), a.skip(1), p1, p2);
            }
        }
    }
}

/// Collapsing a run of consecutive wildcards to a single one never changes
/// the result: for every query `q`, a pattern of the shape
/// `a + star_run(k) + b` with `k >= 1` accepts `q` exactly when
/// `a + star_run(1) + b` does.
pub proof fn lemma_collapse_star_run(q: Seq<u8>, a: Seq<u8>, k: nat, b: Seq<u8>)
    requires
        k >= 1,
    ensures
        wild_match(q, a + star_run(k) + b) == wild_match(q, a + star_run(1) + b),
    decreases k,
{
    if k >= 2 {
        let tail = star_run((k - 2) as nat) + b;
        assert forall|qq: Seq<u8>|
            wild_match(qq, star_run(k) + b) == wild_match(qq, star_run((k - 1) as nat) + b) by {
            assert(star_run(k) + b =~= seq![STAR, STAR] + tail);
            assert(star_run((k - 1) as nat) + b =~= seq![STAR] + tail);
            lemma_double_star(qq, tail);
        }
        lemma_prefix_congruence(q, a, star_run(k) + b, star_run((k - 1) as nat) + b);
        assert(a + star_run(k) + b =~= a + (star_run(k) + b));
        assert(a + star_run((k - 1) as nat) + b =~= a + (star_run((k - 1) as nat) + b));
        lemma_collapse_star_run(q, a, (k - 1) as nat, b);
    }
}

/// Whether `query` matches `pattern`, where every `*` byte of the pattern
/// stands for any run of query bytes and all other bytes match exactly.
pub fn strpcmp(query: &[u8], pattern: &[u8]) -> (r: bool)
    ensures
        r == wild_match(query@, pattern@),
    decreases pattern@.len(),
{
    let q_len = query.len();
    let p_len = pattern.len();

    // Match the literal prefix of the pattern, byte for byte.
    proof {
        assert(query@.skip(0) =~= query@);
        assert(pattern@.skip(0) =~= pattern@);
    }
    let mut i: usize = 0;
    while i < p_len && pattern[i] != STAR
        invariant
            0 <= i <= p_len,
            i <= q_len,
            q_len == query@.len(),
            p_len == pattern@.len(),
            wild_match(query@, pattern@) == wild_match(query@.skip(i as int), pattern@.skip(i as int)),
        decreases p_len - i,
    {
        if i >= q_len || pattern[i] != query[i] {
            proof {
                let qs = query@.skip(i as int);
                let ps = pattern@.skip(i as int);
                assert(ps[0] == pattern@[i as int]);
                if i < q_len {
                    assert(qs[0] == query@[i as int]);
                }
                assert(!wild_match(qs, ps));
            }
            return false;
        }
        proof {
            let qs = query@.skip(i as int);
            let ps = pattern@.skip(i as int);
            assert(qs[0] == query@[i as int] && ps[0] == pattern@[i as int]);
            assert(qs.skip(1) =~= query@.skip(i + 1));
            assert(ps.skip(1) =~= pattern@.skip(i + 1));
            assert(wild_match(qs, ps) == wild_match(qs.skip(1), ps.skip(1)));
        }
        i += 1;
    }

    if i == p_len {
        proof {
            assert(pattern@.skip(i as int) =~= Seq::<u8>::empty());
            assert(wild_match(query@.skip(i as int), pattern@.skip(i as int)) == (query@.skip(
                i as int,
            ).len() == 0));
        }
        return i == q_len;
    }

    // The pattern now starts with a wildcard; skip the whole run of them.
    let q_pos = i;
    let ghost base_q = query@.skip(q_pos as int);
    proof {
        assert(pattern@.skip(q_pos as int) =~= seq![STAR] + pattern@.skip(q_pos + 1));
    }
    i += 1;
    while i < p_len && pattern[i] == STAR
        invariant
            q_pos < i <= p_len,
            q_pos <= q_len,
            q_len == query@.len(),
            p_len == pattern@.len(),
            base_q == query@.skip(q_pos as int),
            wild_match(query@, pattern@) == wild_match(base_q, seq![STAR] + pattern@.skip(i as int)),
        decreases p_len - i,
    {
        proof {
            assert(seq![STAR] + pattern@.skip(i as int) =~= seq![STAR, STAR] + pattern@.skip(i + 1));
            lemma_double_star(base_q, pattern@.skip(i + 1));
        }
        i += 1;
    }

    if i == p_len {
        proof {
            assert(seq![STAR] + pattern@.skip(i as int) =~= seq![STAR]);
            lemma_star_matches_all(base_q);
        }
        return true;
    }

    // Try every split point for the text consumed by the wildcard run.
    let ghost rest = pattern@.skip(i as int);
    proof {
        lemma_star_split(base_q, rest);
    }
    let mut j: usize = q_pos;
    while j < q_len
        invariant
            q_pos <= j <= q_len,
            q_pos < i < p_len,
            q_len == query@.len(),
            p_len == pattern@.len(),
            base_q == query@.skip(q_pos as int),
            rest == pattern@.skip(i as int),
            rest.len() > 0 && rest[0] != STAR,
            wild_match(query@, pattern@) == wild_match(base_q, seq![STAR] + rest),
            wild_match(base_q, seq![STAR] + rest) <==> exists|jj: int|
                0 <= jj <= base_q.len() && wild_match(base_q.skip(jj), rest),
            forall|jj: int|
                0 <= jj < j - q_pos ==> !wild_match(#[trigger] base_q.skip(jj), rest),
        decreases q_len - j,
    {
        let q_tail = vstd::slice::slice_subrange(query, j, q_len);
        let p_tail = vstd::slice::slice_subrange(pattern, i, p_len);
        if strpcmp(q_tail, p_tail) {
            proof {
                assert(q_tail@ =~= base_q.skip(j - q_pos));
                assert(wild_match(base_q.skip(j - q_pos), rest));
            }
            return true;
        }
        proof {
            assert(q_tail@ =~= base_q.skip(j - q_pos));
        }
        j += 1;
    }
    proof {
        assert forall|jj: int| 0 <= jj <= base_q.len() implies !wild_match(
            #[trigger] base_q.skip(jj),
            rest,
        ) by {
            if jj == base_q.len() {
                assert(base_q.skip(jj) =~= Seq::<u8>::empty());
            }
        }
    }
    false
}

} // verus!
