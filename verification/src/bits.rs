//! Bitwise AND and OR on mathematical integers, in two's complement, and the
//! two facts the codecs need of them: masking with `2^k - 1` is the remainder
//! modulo `2^k`, and OR-ing below a multiple of `2^k` is addition.

use vstd::prelude::*;
use vstd::arithmetic::power2::{pow2, lemma_pow2_pos, lemma_pow2_unfold};

verus! {

/// The magnitude of `a`.
pub open spec fn magnitude(a: int) -> nat {
    if a >= 0 {
        a as nat
    } else {
        (-a) as nat
    }
}

/// Bitwise AND of two integers, each taken as an infinite two's complement
/// bit string (a negative number has infinitely many leading ones).
pub open spec fn bit_and(a: int, b: int) -> int
    decreases magnitude(a),
{
    if a == 0 {
        0
    } else if a == -1 {
        b
    } else {
        2 * bit_and(a / 2, b / 2) + if a % 2 == 1 && b % 2 == 1 {
            1int
        } else {
            0int
        }
    }
}

/// Bitwise OR of two integers, each taken as an infinite two's complement
/// bit string.
pub open spec fn bit_or(a: int, b: int) -> int
    decreases magnitude(a),
{
    if a == 0 {
        b
    } else if a == -1 {
        -1
    } else {
        2 * bit_or(a / 2, b / 2) + if a % 2 == 1 || b % 2 == 1 {
            1int
        } else {
            0int
        }
    }
}

/// AND with zero is zero.
pub proof fn lemma_bit_and_zero(a: int)
    ensures
        bit_and(a, 0) == 0,
    decreases magnitude(a),
{
    if a != 0 && a != -1 {
        lemma_bit_and_zero(a / 2);
    }
}

/// OR with zero changes nothing.
pub proof fn lemma_bit_or_zero(a: int)
    ensures
        bit_or(a, 0) == a,
    decreases magnitude(a),
{
    if a != 0 && a != -1 {
        lemma_bit_or_zero(a / 2);
    }
}

/// AND with the mask `2^k - 1` keeps the low `k` bits: the remainder modulo
/// `2^k`.
pub proof fn lemma_bit_and_low(a: int, k: nat)
    ensures
        bit_and(a, pow2(k) - 1) == a % (pow2(k) as int),
    decreases k,
{
    lemma_pow2_pos(k);
    if k == 0 {
        lemma_pow2_unfold(1);
        assert(pow2(0) == 1) by {
            vstd::arithmetic::power2::lemma2_to64();
        }
        lemma_bit_and_zero(a);
        assert(a % 1 == 0);
    } else {
        let half = pow2((k - 1) as nat) as int;
        lemma_pow2_pos((k - 1) as nat);
        lemma_pow2_unfold(k);
        assert(pow2(k) == 2 * half);
        let m = pow2(k) - 1;
        assert(m / 2 == half - 1 && m % 2 == 1);
        if a == 0 {
            assert(0int % (2 * half) == 0) by (nonlinear_arith)
                requires
                    half >= 1,
            ;
        } else if a == -1 {
            assert((-1int) % (2 * half) == 2 * half - 1) by (nonlinear_arith)
                requires
                    half >= 1,
            ;
        } else {
            lemma_bit_and_low(a / 2, (k - 1) as nat);
            assert(bit_and(a, m) == 2 * ((a / 2) % half) + a % 2);
            assert(a % (2 * half) == 2 * ((a / 2) % half) + a % 2) by (nonlinear_arith)
                requires
                    half >= 1,
            ;
        }
    }
}

/// OR of a multiple of `2^k` with a value below `2^k` is their sum.
pub proof fn lemma_bit_or_disjoint(a: int, k: nat, g: int)
    requires
        0 <= g < pow2(k),
    ensures
        bit_or(a * pow2(k), g) == a * pow2(k) + g,
    decreases k,
{
    lemma_pow2_pos(k);
    if k == 0 {
        assert(pow2(0) == 1) by {
            vstd::arithmetic::power2::lemma2_to64();
        }
        assert(a * 1 == a);
        lemma_bit_or_zero(a);
    } else {
        let half = pow2((k - 1) as nat) as int;
        lemma_pow2_pos((k - 1) as nat);
        lemma_pow2_unfold(k);
        assert(pow2(k) == 2 * half);
        let big = a * pow2(k);
        assert(big == 2 * (a * half)) by (nonlinear_arith)
            requires
                big == a * (2 * half),
        ;
        if big != 0 {
            assert(big / 2 == a * half && big % 2 == 0);
            lemma_bit_or_disjoint(a, (k - 1) as nat, g / 2);
        }
    }
}

} // verus!
