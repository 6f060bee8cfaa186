//! Base-128 digits to arbitrary-precision integers, by shifts and ORs.

use vstd::prelude::*;
use vstd::arithmetic::power2::{pow2, lemma2_to64, lemma_pow2_adds};
use num_bigint::{BigInt, BigUint};
use crate::bigint::{
    ibig_from_i64, ibig_or, ibig_shl, ibig_sub, ibig_value, ubig_from_u64, ubig_or, ubig_shl,
    ubig_value,
};
use crate::bits::lemma_bit_or_disjoint;
use crate::wire::{all_groups, base128, signed_base128};

verus! {

/// One step of the unfolding of `base128` from index `i - 1`.
proof fn lemma_base128_step(d: Seq<u8>, i: int)
    requires
        0 < i <= d.len(),
    ensures
        base128(d.skip(i - 1)) == d[i - 1] as nat + 128 * base128(d.skip(i)),
{
    assert(d.skip(i - 1).skip(1) =~= d.skip(i));
}

/// The unsigned integer with the base-128 digits `digits`, least significant
/// first. Built from the most significant digit down: shift left by seven
/// bits, OR the next digit in.
pub(crate) fn ubig_from_digits(digits: &Vec<u8>) -> (res: BigUint)
    requires
        all_groups(digits@),
    ensures
        ubig_value(res) == base128(digits@),
{
    let mut value = ubig_from_u64(0).unwrap();
    let mut i = digits.len();
    assert(digits@.skip(i as int) =~= Seq::<u8>::empty());
    while i > 0
        invariant
            i <= digits@.len(),
            all_groups(digits@),
            ubig_value(value) == base128(digits@.skip(i as int)),
        decreases i,
    {
        proof {
            lemma_base128_step(digits@, i as int);
            lemma2_to64();
            lemma_bit_or_disjoint(ubig_value(value) as int, 7, digits@[i - 1] as int);
        }
        i -= 1;
        let part = ubig_from_u64(digits[i] as u64).unwrap();
        let shifted = ubig_shl(&value, 7);
        value = ubig_or(&shifted, &part);
    }
    assert(digits@.skip(0) =~= digits@);
    value
}

/// The signed integer with the base-128 digits `digits`, least significant
/// first, the last of them carrying the sign: the unsigned value is built as
/// in `ubig_from_digits`, and where the sign bit of the last digit is set,
/// two to the number of bits taken is subtracted from it.
pub(crate) fn ibig_from_digits(digits: &Vec<u8>) -> (res: BigInt)
    requires
        digits@.len() > 0,
        all_groups(digits@),
    ensures
        ibig_value(res) == signed_base128(digits@),
{
    let mut value = ibig_from_i64(0).unwrap();
    let mut scale = ibig_from_i64(1).unwrap();
    let mut i = digits.len();
    proof {
        lemma2_to64();
        assert(digits@.skip(i as int) =~= Seq::<u8>::empty());
    }
    while i > 0
        invariant
            i <= digits@.len(),
            all_groups(digits@),
            ibig_value(value) == base128(digits@.skip(i as int)),
            ibig_value(scale) == pow2((7 * (digits@.len() - i)) as nat),
        decreases i,
    {
        proof {
            lemma_base128_step(digits@, i as int);
            lemma2_to64();
            lemma_bit_or_disjoint(ibig_value(value), 7, digits@[i - 1] as int);
            lemma_pow2_adds((7 * (digits@.len() - i)) as nat, 7);
        }
        i -= 1;
        let part = ibig_from_i64(digits[i] as i64).unwrap();
        let shifted = ibig_shl(&value, 7);
        value = ibig_or(&shifted, &part);
        scale = ibig_shl(&scale, 7);
    }
    assert(digits@.skip(0) =~= digits@);
    let last = digits[digits.len() - 1];
    assert(last & 0x40 != 0 <==> last >= 64) by (bit_vector)
        requires
            last < 128,
    ;
    if last & 0x40 != 0 {
        ibig_sub(&value, &scale)
    } else {
        value
    }
}

} // verus!
