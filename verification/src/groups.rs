//! Splitting a string into the maximal runs of characters a predicate
//! accepts, from either end.

use vstd::prelude::*;

verus! {

/// Walks a string and hands out the maximal runs of characters accepted
/// by the predicate, front to back or back to front.
pub struct Groups<'a, F> {
    s: &'a str,
    f: F,
}

impl<'a, F: Fn(char) -> bool> Groups<'a, F> {
    /// What is left to walk.
    pub closed spec fn spec_rest(self) -> Seq<char> {
        self.s@
    }

    /// The predicate that tells group characters apart.
    pub closed spec fn spec_pred(self) -> F {
        self.f
    }

    /// A walk over `s` grouping the characters `f` accepts.
    pub fn new(s: &'a str, f: F) -> (r: Self)
        ensures
            r.spec_rest() == s@,
            r.spec_pred() == f,
    {
        Self { s, f }
    }

    /// The next group from the front: leading refused characters are
    /// dropped, the run of accepted ones is handed out, and one refused
    /// character after it is consumed. Nothing is left when every
    /// remaining character is refused. The predicate is free to answer
    /// as it likes, so the contract speaks of the answers it gave.
    pub fn next(&mut self) -> (r: Option<&'a str>)
        requires
            forall|c: char| call_requires(old(self).spec_pred(), (c,)),
        ensures
            final(self).spec_pred() == old(self).spec_pred(),
            r.is_none() ==> final(self).spec_rest().len() == 0 && (forall|k: int|
                0 <= k < old(self).spec_rest().len() ==> call_ensures(
                    old(self).spec_pred(),
                    (old(self).spec_rest()[k],),
                    false,
                )),
            r matches Some(w) ==> exists|a: int, e: int|
                {
                    &&& 0 <= a < e <= old(self).spec_rest().len()
                    &&& w@ == #[trigger] old(self).spec_rest().subrange(a, e)
                    &&& final(self).spec_rest() == (if e < old(self).spec_rest().len() {
                        old(self).spec_rest().skip(e + 1)
                    } else {
                        Seq::<char>::empty()
                    })
                    &&& forall|k: int|
                        0 <= k < a ==> call_ensures(
                            old(self).spec_pred(),
                            (old(self).spec_rest()[k],),
                            false,
                        )
                    &&& forall|k: int|
                        a <= k < e ==> call_ensures(
                            old(self).spec_pred(),
                            (old(self).spec_rest()[k],),
                            true,
                        )
                    &&& e < old(self).spec_rest().len() ==> call_ensures(
                        old(self).spec_pred(),
                        (old(self).spec_rest()[e],),
                        false,
                    )
                },
    {
        let cur: &'a str = self.s;
        let ghost t = cur@;
        let n = cur.unicode_len();
        let mut a: usize = 0;
        while a < n && !(self.f)(cur.get_char(a))
            invariant
                0 <= a <= n,
                n == t.len(),
                t == cur@,
                self.f == old(self).spec_pred(),
                self.s == cur,
                forall|c: char| call_requires(self.f, (c,)),
                forall|k: int| 0 <= k < a ==> call_ensures(self.f, (t[k],), false),
            decreases n - a,
        {
            a += 1;
        }
        if a == n {
            self.s = cur.substring_char(n, n);
            proof {
                assert(self.s@ =~= Seq::<char>::empty());
            }
            return None;
        }
        let mut e: usize = a + 1;
        while e < n && (self.f)(cur.get_char(e))
            invariant
                a < e <= n,
                a < n,
                n == t.len(),
                t == cur@,
                self.f == old(self).spec_pred(),
                self.s == cur,
                forall|c: char| call_requires(self.f, (c,)),
                forall|k: int| 0 <= k < a ==> call_ensures(self.f, (t[k],), false),
                forall|k: int| a <= k < e ==> call_ensures(self.f, (t[k],), true),
            decreases n - e,
        {
            e += 1;
        }
        let word = cur.substring_char(a, e);
        if e < n {
            self.s = cur.substring_char(e + 1, n);
            proof {
                assert(self.s@ =~= t.skip(e + 1));
            }
        } else {
            self.s = cur.substring_char(n, n);
            proof {
                assert(self.s@ =~= Seq::<char>::empty());
            }
        }
        proof {
            let ai = a as int;
            let ei = e as int;
            assert(t == old(self).spec_rest());
            assert(old(self).spec_rest().subrange(ai, ei) == word@);
        }
        Some(word)
    }

    /// The next group from the back: the mirror image of [`Groups::next`].
    pub fn next_back(&mut self) -> (r: Option<&'a str>)
        requires
            forall|c: char| call_requires(old(self).spec_pred(), (c,)),
        ensures
            final(self).spec_pred() == old(self).spec_pred(),
            r.is_none() ==> final(self).spec_rest().len() == 0 && (forall|k: int|
                0 <= k < old(self).spec_rest().len() ==> call_ensures(
                    old(self).spec_pred(),
                    (old(self).spec_rest()[k],),
                    false,
                )),
            r matches Some(w) ==> exists|a: int, e: int|
                {
                    &&& 0 <= a < e <= old(self).spec_rest().len()
                    &&& w@ == #[trigger] old(self).spec_rest().subrange(a, e)
                    &&& final(self).spec_rest() == (if a > 0 {
                        old(self).spec_rest().take(a - 1)
                    } else {
                        Seq::<char>::empty()
                    })
                    &&& forall|k: int|
                        e <= k < old(self).spec_rest().len() ==> call_ensures(
                            old(self).spec_pred(),
                            (old(self).spec_rest()[k],),
                            false,
                        )
                    &&& forall|k: int|
                        a <= k < e ==> call_ensures(
                            old(self).spec_pred(),
                            (old(self).spec_rest()[k],),
                            true,
                        )
                    &&& a > 0 ==> call_ensures(
                        old(self).spec_pred(),
                        (old(self).spec_rest()[a - 1],),
                        false,
                    )
                },
    {
        let cur: &'a str = self.s;
        let ghost t = cur@;
        let n = cur.unicode_len();
        let mut e: usize = n;
        while e > 0 && !(self.f)(cur.get_char(e - 1))
            invariant
                0 <= e <= n,
                n == t.len(),
                t == cur@,
                self.f == old(self).spec_pred(),
                self.s == cur,
                forall|c: char| call_requires(self.f, (c,)),
                forall|k: int| e <= k < n ==> call_ensures(self.f, (t[k],), false),
            decreases e,
        {
            e -= 1;
        }
        if e == 0 {
            self.s = cur.substring_char(0, 0);
            proof {
                assert(self.s@ =~= Seq::<char>::empty());
            }
            return None;
        }
        let mut a: usize = e - 1;
        while a > 0 && (self.f)(cur.get_char(a - 1))
            invariant
                0 <= a < e <= n,
                n == t.len(),
                t == cur@,
                self.f == old(self).spec_pred(),
                self.s == cur,
                forall|c: char| call_requires(self.f, (c,)),
                forall|k: int| e <= k < n ==> call_ensures(self.f, (t[k],), false),
                forall|k: int| a <= k < e ==> call_ensures(self.f, (t[k],), true),
            decreases a,
        {
            a -= 1;
        }
        let word = cur.substring_char(a, e);
        if a > 0 {
            self.s = cur.substring_char(0, a - 1);
            proof {
                assert(self.s@ =~= t.take(a - 1));
            }
        } else {
            self.s = cur.substring_char(0, 0);
            proof {
                assert(self.s@ =~= Seq::<char>::empty());
            }
        }
        proof {
            let ai = a as int;
            let ei = e as int;
            assert(t == old(self).spec_rest());
            assert(old(self).spec_rest().subrange(ai, ei) == word@);
        }
        Some(word)
    }
}

} // verus!
