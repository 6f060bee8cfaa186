//! The wire formats, as mathematics: what each value looks like in bytes and
//! what value a run of bytes stands for.

use vstd::prelude::*;
use vstd::arithmetic::power2::pow2;
use crate::store::byte_or_zero;

verus! {

/// The decode limit that the 64-bit variable-length readers and the length
/// prefix of a string apply. A 64-bit value takes at most 10 bytes.
pub const VARINT_LIMIT: i32 = 20;

/// The first `width` bytes of `v` in little-endian order: byte `i` is
/// `v / 256^i % 256`.
pub open spec fn le_bytes(v: nat, width: nat) -> Seq<u8>
    decreases width,
{
    if width == 0 {
        Seq::empty()
    } else {
        seq![(v % 256) as u8] + le_bytes(v / 256, (width - 1) as nat)
    }
}

/// The number that the bytes `b` stand for in little-endian order: the sum
/// of `b[i] * 256^i`.
pub open spec fn le_value(b: Seq<u8>) -> nat
    decreases b.len(),
{
    if b.len() == 0 {
        0
    } else {
        b[0] as nat + 256 * le_value(b.skip(1))
    }
}

/// The two's complement of `v` in `bits` bits: `v` itself where it is not
/// negative, `v + 2^bits` where it is.
pub open spec fn wrap(v: int, bits: nat) -> nat {
    (v % (pow2(bits) as int)) as nat
}

/// The integer that `u` stands for in two's complement of `bits` bits: `u`
/// itself below `2^(bits - 1)`, `u - 2^bits` from there on.
pub open spec fn signed(u: nat, bits: nat) -> int {
    if bits > 0 && u >= pow2((bits - 1) as nat) {
        u - pow2(bits)
    } else {
        u as int
    }
}

/// `n` zero bytes.
pub open spec fn zeros(n: nat) -> Seq<u8> {
    Seq::new(n, |i: int| 0u8)
}

/// Zero bytes behind the last byte do not change a little-endian value.
pub proof fn lemma_le_value_padded(b: Seq<u8>, n: nat)
    ensures
        le_value(b + zeros(n)) == le_value(b),
    decreases b.len() + n,
{
    let padded = b + zeros(n);
    if b.len() > 0 {
        assert(padded.skip(1) =~= b.skip(1) + zeros(n));
        lemma_le_value_padded(b.skip(1), n);
    } else if n > 0 {
        assert(padded.skip(1) =~= b + zeros((n - 1) as nat));
        lemma_le_value_padded(b, (n - 1) as nat);
    } else {
        assert(padded =~= b);
    }
}

/// The two bytes of a `u16`, low byte first.
pub proof fn lemma_le_bytes_u16(v: u16)
    ensures
        le_bytes(v as nat, 2) == seq![v as u8, (v >> 8) as u8],
{
    reveal_with_fuel(le_bytes, 3);
    assert(v as u8 == v % 256 && (v >> 8) as u8 == v / 256 % 256) by (bit_vector);
    assert(le_bytes(v as nat, 2) =~= seq![v as u8, (v >> 8) as u8]);
}

/// The four bytes of a `u32`, low byte first.
pub proof fn lemma_le_bytes_u32(v: u32)
    ensures
        le_bytes(v as nat, 4) == seq![v as u8, (v >> 8) as u8, (v >> 16) as u8, (v >> 24) as u8],
{
    reveal_with_fuel(le_bytes, 5);
    assert({
        &&& v as u8 == v % 256
        &&& (v >> 8) as u8 == v / 256 % 256
        &&& (v >> 16) as u8 == v / 256 / 256 % 256
        &&& (v >> 24) as u8 == v / 256 / 256 / 256 % 256
    }) by (bit_vector);
    assert(le_bytes(v as nat, 4) =~= seq![
        v as u8,
        (v >> 8) as u8,
        (v >> 16) as u8,
        (v >> 24) as u8,
    ]);
}

/// The eight bytes of a `u64`, low byte first.
pub proof fn lemma_le_bytes_u64(v: u64)
    ensures
        le_bytes(v as nat, 8) == seq![
            v as u8,
            (v >> 8) as u8,
            (v >> 16) as u8,
            (v >> 24) as u8,
            (v >> 32) as u8,
            (v >> 40) as u8,
            (v >> 48) as u8,
            (v >> 56) as u8,
        ],
{
    reveal_with_fuel(le_bytes, 9);
    assert({
        &&& v as u8 == v % 256
        &&& (v >> 8) as u8 == v / 256 % 256
        &&& (v >> 16) as u8 == v / 256 / 256 % 256
        &&& (v >> 24) as u8 == v / 256 / 256 / 256 % 256
    }) by (bit_vector);
    assert({
        &&& (v >> 32) as u8 == v / 256 / 256 / 256 / 256 % 256
        &&& (v >> 40) as u8 == v / 256 / 256 / 256 / 256 / 256 % 256
        &&& (v >> 48) as u8 == v / 256 / 256 / 256 / 256 / 256 / 256 % 256
        &&& (v >> 56) as u8 == v / 256 / 256 / 256 / 256 / 256 / 256 / 256 % 256
    }) by (bit_vector);
    assert(le_bytes(v as nat, 8) =~= seq![
        v as u8,
        (v >> 8) as u8,
        (v >> 16) as u8,
        (v >> 24) as u8,
        (v >> 32) as u8,
        (v >> 40) as u8,
        (v >> 48) as u8,
        (v >> 56) as u8,
    ]);
}

/// The value of two bytes in little-endian order, by shifts and ORs.
pub proof fn lemma_le_value_u16(b: Seq<u8>)
    requires
        b.len() == 2,
    ensures
        le_value(b) == (b[0] as u16) | (b[1] as u16) << 8,
{
    reveal_with_fuel(le_value, 3);
    let (b0, b1) = (b[0], b[1]);
    assert(b.skip(1)[0] == b1);
    assert((b0 as u16) | (b1 as u16) << 8 == b0 as u16 + 256 * (b1 as u16)) by (bit_vector);
}

/// The value of four bytes in little-endian order, by shifts and ORs.
pub proof fn lemma_le_value_u32(b: Seq<u8>)
    requires
        b.len() == 4,
    ensures
        le_value(b) == (b[0] as u32)
            | (b[1] as u32) << 8
            | (b[2] as u32) << 16
            | (b[3] as u32) << 24,
{
    reveal_with_fuel(le_value, 5);
    let (b0, b1, b2, b3) = (b[0], b[1], b[2], b[3]);
    let t1 = b.skip(1);
    let t2 = t1.skip(1);
    let t3 = t2.skip(1);
    assert(t1[0] == b1 && t2[0] == b2 && t3[0] == b3);
    assert((b0 as u32) | (b1 as u32) << 8 | (b2 as u32) << 16 | (b3 as u32) << 24
        == b0 as u32 + 256 * (b1 as u32 + 256 * (b2 as u32 + 256 * (b3 as u32))))
        by (bit_vector);
}

/// The value of eight bytes in little-endian order, by shifts and ORs.
pub proof fn lemma_le_value_u64(b: Seq<u8>)
    requires
        b.len() == 8,
    ensures
        le_value(b) == (b[0] as u64)
            | (b[1] as u64) << 8
            | (b[2] as u64) << 16
            | (b[3] as u64) << 24
            | (b[4] as u64) << 32
            | (b[5] as u64) << 40
            | (b[6] as u64) << 48
            | (b[7] as u64) << 56,
{
    reveal_with_fuel(le_value, 9);
    let (b0, b1, b2, b3) = (b[0], b[1], b[2], b[3]);
    let (b4, b5, b6, b7) = (b[4], b[5], b[6], b[7]);
    let t1 = b.skip(1);
    let t2 = t1.skip(1);
    let t3 = t2.skip(1);
    let t4 = t3.skip(1);
    let t5 = t4.skip(1);
    let t6 = t5.skip(1);
    let t7 = t6.skip(1);
    assert(t1[0] == b1 && t2[0] == b2 && t3[0] == b3 && t4[0] == b4);
    assert(t5[0] == b5 && t6[0] == b6 && t7[0] == b7);
    assert((b0 as u64) | (b1 as u64) << 8 | (b2 as u64) << 16 | (b3 as u64) << 24
        | (b4 as u64) << 32 | (b5 as u64) << 40 | (b6 as u64) << 48 | (b7 as u64) << 56
        == b0 as u64 + 256 * (b1 as u64 + 256 * (b2 as u64 + 256 * (b3 as u64 + 256 * (b4 as u64
        + 256 * (b5 as u64 + 256 * (b6 as u64 + 256 * (b7 as u64)))))))) by (bit_vector);
}

/// The number of bytes at the front of `s` that have the continuation bit
/// (0x80) set.
pub open spec fn continued(s: Seq<u8>) -> nat
    decreases s.len(),
{
    if s.len() > 0 && s[0] >= 0x80 {
        1 + continued(s.skip(1))
    } else {
        0
    }
}

/// The low seven bits of each of the first `n` bytes of `s`. Past the end of
/// `s` the bytes count as zero.
pub open spec fn groups(s: Seq<u8>, n: nat) -> Seq<u8> {
    Seq::new(n, |i: int| byte_or_zero(s, i) % 0x80)
}

/// The number whose base-128 digits are `d`, least significant first.
pub open spec fn base128(d: Seq<u8>) -> nat
    decreases d.len(),
{
    if d.len() == 0 {
        0
    } else {
        d[0] as nat + 128 * base128(d.skip(1))
    }
}

/// Whether every byte of `d` is a seven-bit group.
pub open spec fn all_groups(d: Seq<u8>) -> bool {
    forall|i: int| 0 <= i < d.len() ==> d[i] < 128
}

/// The value of the digits `d`, least significant first, of which the last
/// carries the sign in its bit 0x40: the unsigned value, less `2^(7 * n)`
/// for `n` digits where that bit is set.
pub open spec fn signed_base128(d: Seq<u8>) -> int {
    if d.len() > 0 && d.last() >= 64 {
        base128(d) - pow2(7 * d.len())
    } else {
        base128(d) as int
    }
}

/// The unsigned variable-length encoding of `v`, standard unsigned LEB128:
/// seven bits per byte, least significant group first. Every byte but the
/// last carries the continuation bit (0x80); the last holds what remains
/// once it fits in seven bits.
pub open spec fn uleb_encode(v: nat) -> Seq<u8>
    decreases v,
{
    if v >= 0x80 {
        seq![(v % 128 + 128) as u8] + uleb_encode(v / 128)
    } else {
        seq![v as u8]
    }
}

/// Whether a variable-length integer encoded at the front of `s` runs past
/// the limit: with a positive `limit`, the encoding has more than `limit`
/// bytes. A `limit` of 0 or less admits every encoding.
pub open spec fn exceeds_limit(s: Seq<u8>, limit: int) -> bool {
    limit > 0 && continued(s) >= limit
}

/// The number of single-byte reads that decoding a variable-length integer
/// from `s` makes: one for each byte of the encoding, or `limit + 1` where
/// the encoding runs past the limit.
pub open spec fn reads_made(s: Seq<u8>, limit: int) -> nat {
    if exceeds_limit(s, limit) {
        (limit + 1) as nat
    } else {
        continued(s) + 1
    }
}

/// The unsigned integer encoded at the front of `s`: the seven-bit groups of
/// the bytes up to the first without the continuation bit, least
/// significant first; 0 where the encoding runs past the limit.
pub open spec fn uleb_decode(s: Seq<u8>, limit: int) -> nat {
    if exceeds_limit(s, limit) {
        0
    } else {
        base128(groups(s, continued(s) + 1))
    }
}

/// The signed variable-length encoding of `v` in two's complement: seven
/// bits per byte, least significant group first, ending with the first
/// group after which only copies of its sign bit (0x40) remain.
pub open spec fn sleb_encode(v: int) -> Seq<u8>
    decreases crate::bits::magnitude(v),
{
    let group = v % 128;
    let rest = v / 128;
    if (rest == 0 && group < 64) || (rest == -1 && group >= 64) {
        seq![group as u8]
    } else {
        seq![(group + 128) as u8] + sleb_encode(rest)
    }
}

/// The signed integer encoded at the front of `s`: the unsigned value of
/// its seven-bit groups, less `2^(7 * n)` for an encoding of `n` bytes
/// whose last group has the sign bit set; 0 where the encoding runs past
/// the limit.
pub open spec fn sleb_decode(s: Seq<u8>, limit: int) -> int {
    if exceeds_limit(s, limit) {
        0
    } else {
        signed_base128(groups(s, continued(s) + 1))
    }
}

/// Where the first `k` bytes of `s` are continued and the next one is not
/// (or `s` ends there), `continued(s)` is `k`.
pub proof fn lemma_continued_is(s: Seq<u8>, k: nat)
    requires
        k <= s.len(),
        forall|i: int| 0 <= i < k ==> s[i] >= 0x80,
        byte_or_zero(s, k as int) < 0x80,
    ensures
        continued(s) == k,
    decreases k,
{
    if k > 0 {
        lemma_continued_is(s.skip(1), (k - 1) as nat);
    }
}

/// Where the first `k` bytes of `s` are continued, `continued(s)` is at
/// least `k`.
pub proof fn lemma_continued_at_least(s: Seq<u8>, k: nat)
    requires
        k <= s.len(),
        forall|i: int| 0 <= i < k ==> s[i] >= 0x80,
    ensures
        continued(s) >= k,
    decreases k,
{
    if k > 0 {
        lemma_continued_at_least(s.skip(1), (k - 1) as nat);
    }
}

} // verus!
