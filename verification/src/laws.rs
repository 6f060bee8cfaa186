//! What holds of the buffer as a whole: laws that relate several of its
//! operations, stated over the model that their contracts use.

use vstd::prelude::*;
use vstd::arithmetic::power2::{pow2, lemma2_to64, lemma2_to64_rest, lemma_pow2_adds, lemma_pow2_pos};
use crate::store::Store;
use crate::wire::{
    base128, continued, exceeds_limit, groups, le_bytes, le_value, reads_made, signed,
    signed_base128, sleb_decode, sleb_encode, uleb_decode, uleb_encode, wrap, zeros,
    VARINT_LIMIT,
};
use vstd::utf8::{
    decode_utf8, encode_scalar, encode_utf8, encode_utf8_decode_utf8, encode_utf8_valid_utf8,
    valid_utf8,
};
use crate::text::{
    cstring_data, cstring_wire, lemma_until_nul_is, string_body, string_data, string_len,
    string_wire, until_nul,
};

verus! {

/// Bytes written where the read cursor stands are the bytes read next.
///
/// In a store whose two cursors coincide, as in one just made, writing
/// `data` and then reading `data.len()` bytes transfers exactly `data`. The
/// write cursor has moved by `data.len()`, and no read moves it.
pub proof fn law_write_then_read(s: Store, data: Seq<u8>, n: nat)
    requires
        s.rpos == s.wpos,
    ensures
        s.write(data).peek(data.len()) == data,
        s.write(data).wpos == s.wpos + data.len(),
        s.write(data).advance(n).wpos == s.wpos + data.len(),
        s.write(data).advance(data.len()).rpos == s.write(data).wpos,
{
    assert(s.write(data).peek(data.len()) =~= data);
}

/// What the contracts of a write and of the read that follows give
/// together, on a backend that does not fail: where the two cursors
/// coincided, the read finds all the bytes written, transfers exactly them,
/// and ends where the write ended.
pub proof fn law_written_bytes_are_read(s: Store, data: Seq<u8>, written: Store, read: Store)
    requires
        s.infallible,
        s.rpos == s.wpos,
        s.after_write(data, written),
        written.after_read(data.len(), read),
    ensures
        written.wpos == s.wpos + data.len(),
        written.readable(data.len()) == data.len(),
        written.peek(data.len()) == data,
        read.rpos == written.wpos,
        read.wpos == written.wpos,
        read.content == written.content,
{
    law_write_then_read(s, data, 0);
}

/// A write at the end of the content appends to it.
pub proof fn law_write_at_end_appends(s: Store, data: Seq<u8>)
    requires
        s.wpos == s.content.len(),
    ensures
        s.write(data).content == s.content + data,
{
    assert(s.write(data).content =~= s.content + data);
}

/// A write that ends within the content replaces the bytes it covers and
/// leaves the others, and the length, as they were.
pub proof fn law_write_inside_overwrites(s: Store, data: Seq<u8>)
    requires
        s.wpos + data.len() <= s.content.len(),
    ensures
        s.write(data).content.len() == s.content.len(),
        s.write(data).content.subrange(s.wpos as int, (s.wpos + data.len()) as int) == data,
        forall|i: int|
            0 <= i < s.content.len() && !(s.wpos <= i < s.wpos + data.len()) ==> s.write(
                data,
            ).content[i] == s.content[i],
{
    assert(s.write(data).content.subrange(s.wpos as int, (s.wpos + data.len()) as int) =~= data);
}

/// A write that starts past the end of the content extends it: the gap is
/// filled with zero bytes and the bytes written follow.
pub proof fn law_write_past_end_fills_gap(s: Store, data: Seq<u8>)
    requires
        s.wpos > s.content.len(),
        data.len() > 0,
    ensures
        s.write(data).content == s.content + zeros((s.wpos - s.content.len()) as nat) + data,
{
    assert(s.write(data).content =~= s.content + zeros((s.wpos - s.content.len()) as nat)
        + data);
}

/// Reading does not disturb the content: whatever was read, the store
/// holds the same bytes and the same write cursor.
pub proof fn law_read_keeps_content(s: Store, n: nat, after: Store)
    requires
        s.after_read(n, after),
    ensures
        after.content == s.content,
        after.wpos == s.wpos,
{
}

/// Writing does not move the read cursor.
pub proof fn law_write_keeps_read_cursor(s: Store, data: Seq<u8>, after: Store)
    requires
        s.after_write(data, after),
    ensures
        after.rpos == s.rpos,
{
}

/// The little-endian bytes of a number stand for that number, cut to the
/// width: `le_value(le_bytes(v, width)) == v mod 256^width`.
pub proof fn law_le_round_trip(v: nat, width: nat)
    ensures
        le_bytes(v, width).len() == width,
        le_value(le_bytes(v, width)) == v % pow2(8 * width),
    decreases width,
{
    lemma2_to64();
    if width > 0 {
        let rest = le_bytes(v / 256, (width - 1) as nat);
        law_le_round_trip(v / 256, (width - 1) as nat);
        assert(le_bytes(v, width).skip(1) =~= rest);
        let high = pow2((8 * (width - 1)) as nat);
        lemma_pow2_pos((8 * (width - 1)) as nat);
        lemma_pow2_adds(8, (8 * (width - 1)) as nat);
        vstd::arithmetic::div_mod::lemma_mod_breakdown(v as int, 256, high as int);
    } else {
        assert(v % 1 == 0);
    }
}

/// A number below `256^width`, written in `width` little-endian bytes where
/// the read cursor stands, is the value of the next `width` bytes.
pub proof fn law_le_write_then_read(s: Store, v: nat, width: nat)
    requires
        s.rpos == s.wpos,
        v < pow2(8 * width),
    ensures
        le_value(s.write(le_bytes(v, width)).peek(width)) == v,
{
    law_le_round_trip(v, width);
    law_write_then_read(s, le_bytes(v, width), 0);
    assert(s.write(le_bytes(v, width)).peek(width) == le_bytes(v, width));
    vstd::arithmetic::div_mod::lemma_small_mod(v, pow2(8 * width));
}

/// Two's complement brings every integer of the width back:
/// `signed(wrap(v, bits), bits) == v` for `-2^(bits-1) <= v < 2^(bits-1)`.
pub proof fn law_twos_complement_round_trip(v: int, bits: nat)
    requires
        bits > 0,
        -pow2((bits - 1) as nat) <= v < pow2((bits - 1) as nat),
    ensures
        wrap(v, bits) < pow2(bits),
        signed(wrap(v, bits), bits) == v,
{
    let half = pow2((bits - 1) as nat) as int;
    lemma_pow2_pos((bits - 1) as nat);
    lemma_pow2_adds(1, (bits - 1) as nat);
    lemma2_to64();
    assert(pow2(bits) == 2 * half);
    if v >= 0 {
        assert(v % (2 * half) == v) by (nonlinear_arith)
            requires
                0 <= v < half,
        ;
    } else {
        assert(v % (2 * half) == v + 2 * half) by (nonlinear_arith)
            requires
                -half <= v < 0,
        ;
    }
}

/// A byte written and read back is the same byte.
pub proof fn law_u8_round_trip(s: Store, v: u8)
    requires
        s.rpos == s.wpos,
    ensures
        s.write(seq![v]).next_byte() == v,
{
}

/// A `u16` written and read back is the same value.
pub proof fn law_u16_round_trip(s: Store, v: u16)
    requires
        s.rpos == s.wpos,
    ensures
        le_value(s.write(le_bytes(v as nat, 2)).peek(2)) == v,
{
    lemma2_to64();
    law_le_write_then_read(s, v as nat, 2);
}

/// A `u32` written and read back is the same value.
pub proof fn law_u32_round_trip(s: Store, v: u32)
    requires
        s.rpos == s.wpos,
    ensures
        le_value(s.write(le_bytes(v as nat, 4)).peek(4)) == v,
{
    lemma2_to64();
    law_le_write_then_read(s, v as nat, 4);
}

/// A `u64` written and read back is the same value.
pub proof fn law_u64_round_trip(s: Store, v: u64)
    requires
        s.rpos == s.wpos,
    ensures
        le_value(s.write(le_bytes(v as nat, 8)).peek(8)) == v,
{
    lemma2_to64();
    law_le_write_then_read(s, v as nat, 8);
}

/// An `i16` written and read back is the same value.
pub proof fn law_i16_round_trip(s: Store, v: i16)
    requires
        s.rpos == s.wpos,
    ensures
        signed(le_value(s.write(le_bytes(wrap(v as int, 16), 2)).peek(2)), 16) == v,
{
    lemma2_to64();
    law_twos_complement_round_trip(v as int, 16);
    law_le_write_then_read(s, wrap(v as int, 16), 2);
}

/// An `i32` written and read back is the same value.
pub proof fn law_i32_round_trip(s: Store, v: i32)
    requires
        s.rpos == s.wpos,
    ensures
        signed(le_value(s.write(le_bytes(wrap(v as int, 32), 4)).peek(4)), 32) == v,
{
    lemma2_to64();
    law_twos_complement_round_trip(v as int, 32);
    law_le_write_then_read(s, wrap(v as int, 32), 4);
}

/// An `i64` written and read back is the same value.
pub proof fn law_i64_round_trip(s: Store, v: i64)
    requires
        s.rpos == s.wpos,
    ensures
        signed(le_value(s.write(le_bytes(wrap(v as int, 64), 8)).peek(8)), 64) == v,
{
    lemma2_to64();
    lemma2_to64_rest();
    law_twos_complement_round_trip(v as int, 64);
    law_le_write_then_read(s, wrap(v as int, 64), 8);
}

/// A boolean written and read back is the same boolean.
pub proof fn law_bool_round_trip(s: Store, v: bool)
    requires
        s.rpos == s.wpos,
    ensures
        (s.write(seq![if v { 1u8 } else { 0u8 }]).next_byte() == 1) == v,
{
}

/// A positive limit bounds what a variable-length read consumes, and it
/// is a limit on the bytes of the encoding, the same for unsigned and signed
/// integers: at most `limit + 1` single-byte reads are made, an encoding of
/// more than `limit` bytes decodes to 0, and one of `limit` bytes or fewer
/// is within the limit.
pub proof fn law_limit_bounds_decoding(s: Seq<u8>, limit: int)
    requires
        limit > 0,
    ensures
        reads_made(s, limit) <= limit + 1,
        continued(s) + 1 > limit <==> exceeds_limit(s, limit),
        exceeds_limit(s, limit) ==> uleb_decode(s, limit) == 0 && sleb_decode(s, limit) == 0,
        !exceeds_limit(s, limit) ==> reads_made(s, limit) == continued(s) + 1,
{
}

/// In a store whose two cursors coincide, what is unread after a write
/// begins with the bytes written.
pub proof fn lemma_unread_after_write(s: Store, data: Seq<u8>)
    requires
        s.rpos == s.wpos,
    ensures
        s.write(data).unread() == data + s.write(data).unread().skip(data.len() as int),
        s.write(data).available() >= data.len(),
{
    let t = s.write(data);
    assert(t.unread() =~= data + t.unread().skip(data.len() as int));
}

/// The shape of an unsigned encoding: all its bytes but the last carry the
/// continuation bit, the last does not, and its seven-bit groups are the
/// base-128 digits of the value.
proof fn lemma_uleb_shape(v: nat, rest: Seq<u8>)
    ensures
        uleb_encode(v).len() >= 1,
        continued(uleb_encode(v) + rest) == uleb_encode(v).len() - 1,
        base128(groups(uleb_encode(v) + rest, uleb_encode(v).len())) == v,
    decreases v,
{
    let s = uleb_encode(v) + rest;
    if v >= 0x80 {
        let tail = uleb_encode(v / 128);
        lemma_uleb_shape(v / 128, rest);
        let digits = groups(s, uleb_encode(v).len());
        assert(s.skip(1) =~= tail + rest);
        assert(digits.skip(1) =~= groups(tail + rest, tail.len()));
        assert(digits[0] == v % 128);
    } else {
        assert(groups(s, 1).skip(1) =~= Seq::<u8>::empty());
        assert(base128(Seq::<u8>::empty()) == 0);
        assert(groups(s, 1)[0] == v);
    }
}

/// The shape of a signed encoding: all its bytes but the last carry the
/// continuation bit, the last does not, and its seven-bit groups, the last
/// of them carrying the sign, are the digits of the value.
proof fn lemma_sleb_shape(v: int, rest: Seq<u8>)
    ensures
        sleb_encode(v).len() >= 1,
        continued(sleb_encode(v) + rest) == sleb_encode(v).len() - 1,
        signed_base128(groups(sleb_encode(v) + rest, sleb_encode(v).len())) == v,
    decreases crate::bits::magnitude(v),
{
    let s = sleb_encode(v) + rest;
    let group = v % 128;
    let high = v / 128;
    lemma2_to64();
    if (high == 0 && group < 64) || (high == -1 && group >= 64) {
        assert(groups(s, 1).skip(1) =~= Seq::<u8>::empty());
        assert(base128(Seq::<u8>::empty()) == 0);
        assert(groups(s, 1)[0] == group);
    } else {
        let tail = sleb_encode(high);
        lemma_sleb_shape(high, rest);
        let digits = groups(s, sleb_encode(v).len());
        let upper = groups(tail + rest, tail.len());
        assert(s.skip(1) =~= tail + rest);
        assert(digits.skip(1) =~= upper);
        assert(digits.last() == upper.last());
        assert(digits[0] == group);
        lemma_pow2_adds(7, 7 * upper.len());
    }
}

/// An unsigned variable-length integer decodes to the value encoded.
///
/// For every natural number `v` and whatever follows its encoding, decoding
/// consumes exactly the encoding and yields `v`, provided the limit admits
/// the encoding: it is not positive, or the encoding has no more than
/// `limit` bytes.
pub proof fn law_uleb_round_trip(v: nat, rest: Seq<u8>, limit: int)
    requires
        limit <= 0 || uleb_encode(v).len() <= limit,
    ensures
        reads_made(uleb_encode(v) + rest, limit) == uleb_encode(v).len(),
        uleb_decode(uleb_encode(v) + rest, limit) == v,
{
    lemma_uleb_shape(v, rest);
}

/// A signed variable-length integer decodes to the value encoded.
///
/// For every integer `v` and whatever follows its encoding, decoding
/// consumes exactly the encoding and yields `v`, provided the limit admits
/// the encoding: it is not positive, or the encoding has no more than
/// `limit` bytes.
pub proof fn law_sleb_round_trip(v: int, rest: Seq<u8>, limit: int)
    requires
        limit <= 0 || sleb_encode(v).len() <= limit,
    ensures
        reads_made(sleb_encode(v) + rest, limit) == sleb_encode(v).len(),
        sleb_decode(sleb_encode(v) + rest, limit) == v,
{
    lemma_sleb_shape(v, rest);
}

/// No value encodes to zero bytes, in either scheme.
pub proof fn law_encodings_not_empty(unsigned: nat, signed: int)
    ensures
        uleb_encode(unsigned).len() >= 1,
        sleb_encode(signed).len() >= 1,
{
}

/// The unsigned encoding of a value below `2^(7 * k)` has at most `k`
/// bytes, and every encoding has at least one.
pub proof fn law_uleb_len(v: nat, k: nat)
    requires
        k >= 1,
        v < pow2(7 * k),
    ensures
        1 <= uleb_encode(v).len() <= k,
    decreases k,
{
    lemma2_to64();
    if v >= 0x80 {
        lemma_pow2_adds(7, (7 * (k - 1)) as nat);
        law_uleb_len(v / 128, (k - 1) as nat);
    }
}

/// The signed encoding of a value from `-2^(7 * k - 1)` up to, not
/// including, `2^(7 * k - 1)` has at most `k` bytes, and every encoding has
/// at least one.
pub proof fn law_sleb_len(v: int, k: nat)
    requires
        k >= 1,
        -pow2((7 * k - 1) as nat) <= v < pow2((7 * k - 1) as nat),
    ensures
        1 <= sleb_encode(v).len() <= k,
    decreases k,
{
    lemma2_to64();
    let group = v % 128;
    let high = v / 128;
    if !((high == 0 && group < 64) || (high == -1 && group >= 64)) {
        lemma_pow2_adds(7, (7 * (k - 1) - 1) as nat);
        lemma_pow2_adds(6, 1);
        law_sleb_len(high, (k - 1) as nat);
    }
}

/// A `u64` written as an unsigned variable-length integer and read back is
/// the same value: the encoding has at most 10 bytes, within the limit, and
/// the read ends where the write ended.
pub proof fn law_u_round_trip(s: Store, v: u64)
    requires
        s.rpos == s.wpos,
    ensures
        uleb_encode(v as nat).len() <= 10,
        wrap(uleb_decode(s.write(uleb_encode(v as nat)).unread(), VARINT_LIMIT as int) as int, 64)
            == v,
        s.write(uleb_encode(v as nat)).advance(
            reads_made(s.write(uleb_encode(v as nat)).unread(), VARINT_LIMIT as int),
        ).rpos == s.write(uleb_encode(v as nat)).wpos,
{
    let data = uleb_encode(v as nat);
    let t = s.write(data);
    lemma2_to64();
    lemma_pow2_adds(64, 6);
    law_uleb_len(v as nat, 10);
    lemma_unread_after_write(s, data);
    law_uleb_round_trip(v as nat, t.unread().skip(data.len() as int), VARINT_LIMIT as int);
    vstd::arithmetic::div_mod::lemma_small_mod(v as nat, pow2(64));
}

/// An `i64` written as a signed variable-length integer and read back is
/// the same value: the encoding has at most 10 bytes, within the limit, and
/// the read ends where the write ended.
pub proof fn law_i_round_trip(s: Store, v: i64)
    requires
        s.rpos == s.wpos,
    ensures
        sleb_encode(v as int).len() <= 10,
        signed(
            wrap(sleb_decode(s.write(sleb_encode(v as int)).unread(), VARINT_LIMIT as int), 64),
            64,
        ) == v,
        s.write(sleb_encode(v as int)).advance(
            reads_made(s.write(sleb_encode(v as int)).unread(), VARINT_LIMIT as int),
        ).rpos == s.write(sleb_encode(v as int)).wpos,
{
    let data = sleb_encode(v as int);
    let t = s.write(data);
    lemma2_to64();
    lemma2_to64_rest();
    lemma_pow2_adds(63, 6);
    law_sleb_len(v as int, 10);
    lemma_unread_after_write(s, data);
    law_sleb_round_trip(v as int, t.unread().skip(data.len() as int), VARINT_LIMIT as int);
    law_twos_complement_round_trip(v as int, 64);
}

/// The UTF-8 encoding of a scalar other than 0 holds no zero byte.
proof fn lemma_scalar_no_nul(c: u32)
    by (bit_vector)
    requires
        c != 0,
        c <= 0x10FFFF,
    ensures
        (c & 0x7F) as u8 != 0 || c > 0x7F,
        0xC0u8 | ((c >> 6) & 0x1F) as u8 != 0,
        0xE0u8 | ((c >> 12) & 0x0F) as u8 != 0,
        0xF0u8 | ((c >> 18) & 0x7) as u8 != 0,
        0x80u8 | (c & 0x3F) as u8 != 0,
        0x80u8 | ((c >> 6) & 0x3F) as u8 != 0,
        0x80u8 | ((c >> 12) & 0x3F) as u8 != 0,
{
}

/// The UTF-8 encoding of a string without a NUL character holds no zero
/// byte.
pub proof fn lemma_no_nul_bytes(chars: Seq<char>)
    requires
        forall|i: int| 0 <= i < chars.len() ==> chars[i] as u32 != 0,
    ensures
        forall|i: int| 0 <= i < encode_utf8(chars).len() ==> encode_utf8(chars)[i] != 0,
    decreases chars.len(),
{
    if chars.len() > 0 {
        let first = encode_scalar(chars[0] as u32);
        let rest = chars.drop_first();
        vstd::utf8::char_is_scalar(chars[0]);
        lemma_scalar_no_nul(chars[0] as u32);
        assert forall|i: int| 0 <= i < rest.len() implies rest[i] as u32 != 0 by {
            assert(rest[i] == chars[i + 1]);
        }
        lemma_no_nul_bytes(rest);
        assert forall|i: int| 0 <= i < encode_utf8(chars).len() implies encode_utf8(chars)[i]
            != 0 by {
            if i >= first.len() {
                assert(encode_utf8(chars)[i] == encode_utf8(rest)[i - first.len()]);
            }
        }
    }
}

/// A string written with its length in front and read back is the same
/// string.
///
/// This holds in a store whose two cursors coincide, for every string of
/// fewer than `2^64` bytes: what the read takes for the length is the byte
/// length, what it takes for the bytes is the UTF-8 encoding of the string,
/// which is valid and decodes to the string, and the read ends where the
/// write ended.
pub proof fn law_string_round_trip(s: Store, chars: Seq<char>)
    requires
        s.rpos == s.wpos,
        encode_utf8(chars).len() <= u64::MAX,
    ensures
        string_len(s.write(string_wire(chars))) == encode_utf8(chars).len(),
        string_data(s.write(string_wire(chars))) == encode_utf8(chars),
        valid_utf8(string_data(s.write(string_wire(chars)))),
        decode_utf8(string_data(s.write(string_wire(chars)))) == chars,
        string_body(s.write(string_wire(chars))).advance(encode_utf8(chars).len()).rpos
            == s.write(string_wire(chars)).wpos,
{
    let bytes = encode_utf8(chars);
    let prefix = uleb_encode(bytes.len());
    let t = s.write(string_wire(chars));
    let tail = t.unread().skip(string_wire(chars).len() as int);
    lemma2_to64();
    lemma_pow2_adds(64, 6);
    law_uleb_len(bytes.len(), 10);
    lemma_unread_after_write(s, string_wire(chars));
    assert(t.unread() =~= prefix + (bytes + tail));
    law_uleb_round_trip(bytes.len(), bytes + tail, VARINT_LIMIT as int);
    vstd::arithmetic::div_mod::lemma_small_mod(bytes.len(), pow2(64));
    assert(string_body(t).peek(bytes.len()) =~= bytes);
    assert(string_data(t) =~= bytes);
    encode_utf8_valid_utf8(chars);
    encode_utf8_decode_utf8(chars);
}

/// A string without a NUL character, written with a NUL behind it and read
/// back, is the same string.
///
/// This holds in a store whose two cursors coincide: what the read takes
/// for the bytes is the UTF-8 encoding of the string, which is valid and
/// decodes to the string, and the read ends where the write ended.
pub proof fn law_cstring_round_trip(s: Store, chars: Seq<char>)
    requires
        s.rpos == s.wpos,
        forall|i: int| 0 <= i < chars.len() ==> chars[i] as u32 != 0,
    ensures
        cstring_data(s.write(cstring_wire(chars))) == encode_utf8(chars),
        valid_utf8(cstring_data(s.write(cstring_wire(chars)))),
        decode_utf8(cstring_data(s.write(cstring_wire(chars)))) == chars,
        s.write(cstring_wire(chars)).advance(
            until_nul(s.write(cstring_wire(chars)).unread()) + 1,
        ).rpos == s.write(cstring_wire(chars)).wpos,
{
    let bytes = encode_utf8(chars);
    let t = s.write(cstring_wire(chars));
    lemma_no_nul_bytes(chars);
    lemma_unread_after_write(s, cstring_wire(chars));
    lemma_until_nul_is(t.unread(), bytes.len());
    assert(cstring_data(t) =~= bytes);
    encode_utf8_valid_utf8(chars);
    encode_utf8_decode_utf8(chars);
}

} // verus!
