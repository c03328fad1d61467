//! Decimal addition over ASCII digit strings of arbitrary length.

use vstd::prelude::*;

verus! {

/// The ASCII code of the digit zero.
pub const DIGIT_ZERO: u8 = 48;

/// Whether `d` is an ASCII decimal digit.
pub open spec fn is_digit(d: u8) -> bool {
    48 <= d <= 57
}

/// Whether every byte of `s` is an ASCII decimal digit.
pub open spec fn all_digits(s: Seq<u8>) -> bool {
    forall|i: int| 0 <= i < s.len() ==> is_digit(#[trigger] s[i])
}

/// The value of the digit byte `d`.
pub open spec fn dval(d: u8) -> int {
    d - 48
}

/// Ten to the power `n`.
pub open spec fn pow10(n: nat) -> int
    decreases n,
{
    if n == 0 {
        1
    } else {
        10 * pow10((n - 1) as nat)
    }
}

proof fn lemma_pow10_pos(n: nat)
    ensures
        pow10(n) >= 1,
    decreases n,
{
    if n > 0 {
        lemma_pow10_pos((n - 1) as nat)
    }
}

/// The number written by `s` with the most significant digit first.
pub open spec fn num_msb(s: Seq<u8>) -> int
    decreases s.len(),
{
    if s.len() == 0 {
        0
    } else {
        num_msb(s.drop_last()) * 10 + dval(s.last())
    }
}

/// The number written by `s` with the least significant digit first.
pub open spec fn num_lsb(s: Seq<u8>) -> int
    decreases s.len(),
{
    if s.len() == 0 {
        0
    } else {
        dval(s[0]) + 10 * num_lsb(s.skip(1))
    }
}

proof fn lemma_num_msb_prepend(d: u8, u: Seq<u8>)
    ensures
        num_msb(seq![d] + u) == dval(d) * pow10(u.len()) + num_msb(u),
    decreases u.len(),
{
    if u.len() == 0 {
        assert(seq![d] + u =~= seq![d]);
        assert(seq![d].drop_last() =~= Seq::<u8>::empty());
        assert(num_msb(Seq::<u8>::empty()) == 0);
        assert(num_msb(seq![d]) == dval(d));
    } else {
        assert((seq![d] + u).drop_last() =~= seq![d] + u.drop_last());
        assert((seq![d] + u).last() == u.last());
        lemma_num_msb_prepend(d, u.drop_last());
        assert((dval(d) * pow10((u.len() - 1) as nat) + num_msb(u.drop_last())) * 10 == dval(d)
            * pow10(u.len()) + num_msb(u.drop_last()) * 10) by (nonlinear_arith)
            requires
                pow10(u.len()) == 10 * pow10((u.len() - 1) as nat),
        {}
    }
}

proof fn lemma_num_lsb_push(s: Seq<u8>, d: u8)
    ensures
        num_lsb(s.push(d)) == num_lsb(s) + dval(d) * pow10(s.len()),
    decreases s.len(),
{
    if s.len() == 0 {
        assert(s.push(d) =~= seq![d]);
        assert(num_lsb(seq![d]) == dval(d) + 10 * num_lsb(seq![d].skip(1)));
        assert(seq![d].skip(1) =~= Seq::<u8>::empty());
    } else {
        assert(s.push(d).skip(1) =~= s.skip(1).push(d));
        lemma_num_lsb_push(s.skip(1), d);
        assert(10 * (num_lsb(s.skip(1)) + dval(d) * pow10((s.len() - 1) as nat)) == 10 * num_lsb(
            s.skip(1),
        ) + dval(d) * pow10(s.len())) by (nonlinear_arith)
            requires
                pow10(s.len()) == 10 * pow10((s.len() - 1) as nat),
        {}
    }
}

proof fn lemma_num_reverse(s: Seq<u8>)
    ensures
        num_msb(s.reverse()) == num_lsb(s),
    decreases s.len(),
{
    if s.len() > 0 {
        assert(s.reverse().drop_last() =~= s.skip(1).reverse());
        assert(s.reverse().last() == s[0]);
        lemma_num_reverse(s.skip(1));
    }
}

/// The last `i` digits of `s`; all of `s` when `i` exceeds its length.
pub open spec fn low_digits(s: Seq<u8>, i: int) -> Seq<u8> {
    if i >= s.len() {
        s
    } else {
        s.skip(s.len() - i)
    }
}

/// The sum of two decimal numbers, written as ASCII digit strings.
///
/// The result is as long as the longer input, plus one leading `1` when
/// the addition carries out of that width; its value is the sum of the
/// two input values.
pub fn big_add(a: &[u8], b: &[u8]) -> (r: Vec<u8>)
    requires
        a@.len() > 0,
        b@.len() > 0,
        all_digits(a@),
        all_digits(b@),
    ensures
        all_digits(r@),
        num_msb(r@) == num_msb(a@) + num_msb(b@),
        r@.len() == vstd::math::max(a@.len() as int, b@.len() as int) || (r@.len() == vstd::math::max(
            a@.len() as int,
            b@.len() as int,
        ) + 1 && r@[0] == 49),
{
    let a_len = a.len();
    let b_len = b.len();
    let max_len = if a_len > b_len {
        a_len
    } else {
        b_len
    };

    // Digits of the sum, least significant first.
    let mut out: Vec<u8> = Vec::new();
    let mut carry: bool = false;
    let mut i: usize = 0;
    while i < max_len
        invariant
            i <= max_len,
            a_len == a@.len(),
            b_len == b@.len(),
            a_len > 0 && b_len > 0,
            max_len == vstd::math::max(a_len as int, b_len as int),
            all_digits(a@),
            all_digits(b@),
            all_digits(out@),
            out@.len() == i,
            num_lsb(out@) + (if carry {
                pow10(i as nat)
            } else {
                0
            }) == num_msb(low_digits(a@, i as int)) + num_msb(low_digits(b@, i as int)),
        decreases max_len - i,
    {
        let digit_a: u8 = if i < a_len {
            a[a_len - 1 - i]
        } else {
            0
        };
        let digit_b: u8 = if i < b_len {
            b[b_len - 1 - i]
        } else {
            0
        };
        let da: u8 = if digit_a >= DIGIT_ZERO {
            digit_a - DIGIT_ZERO
        } else {
            0
        };
        let db: u8 = if digit_b >= DIGIT_ZERO {
            digit_b - DIGIT_ZERO
        } else {
            0
        };
        let mut digit: u8 = da + db;
        if carry {
            digit += 1;
        }
        let new_carry = digit >= 10;
        if new_carry {
            digit -= 10;
        }
        proof {
            lemma_pow10_pos(i as nat);
            if i < a_len {
                assert(low_digits(a@, i + 1) =~= seq![a@[a_len - 1 - i]] + low_digits(a@, i as int));
                lemma_num_msb_prepend(a@[a_len - 1 - i], low_digits(a@, i as int));
                assert(low_digits(a@, i as int).len() == i);
            } else {
                assert(low_digits(a@, i + 1) =~= low_digits(a@, i as int));
            }
            if i < b_len {
                assert(low_digits(b@, i + 1) =~= seq![b@[b_len - 1 - i]] + low_digits(b@, i as int));
                lemma_num_msb_prepend(b@[b_len - 1 - i], low_digits(b@, i as int));
                assert(low_digits(b@, i as int).len() == i);
            } else {
                assert(low_digits(b@, i + 1) =~= low_digits(b@, i as int));
            }
            lemma_num_lsb_push(out@, (digit + DIGIT_ZERO) as u8);
            assert((dval((digit + DIGIT_ZERO) as u8) + (if new_carry {
                10int
            } else {
                0int
            })) * pow10(i as nat) == (da + db + (if carry {
                1int
            } else {
                0int
            })) * pow10(i as nat));
            assert(forall|x: int, y: int, p: int|
                #[trigger] ((x + y) * p) == x * p + y * p) by (nonlinear_arith) {}
        }
        out.push(digit + DIGIT_ZERO);
        carry = new_carry;
        i += 1;
    }
    proof {
        assert(low_digits(a@, max_len as int) == a@);
        assert(low_digits(b@, max_len as int) == b@);
    }
    if carry {
        proof {
            lemma_num_lsb_push(out@, 49);
        }
        out.push(49);
    }

    // Reverse into the usual most-significant-first order.
    let n = out.len();
    let mut result: Vec<u8> = Vec::new();
    let mut k: usize = 0;
    while k < n
        invariant
            k <= n,
            n == out@.len(),
            all_digits(out@),
            result@.len() == k,
            forall|j: int| 0 <= j < k ==> result@[j] == out@[n - 1 - j],
        decreases n - k,
    {
        result.push(out[n - 1 - k]);
        k += 1;
    }
    proof {
        assert(result@ =~= out@.reverse());
        lemma_num_reverse(out@);
        assert(all_digits(result@));
        if carry {
            assert(result@[0] == out@[n - 1]);
        }
    }
    result
}

} // verus!
