//! Strings on the wire: UTF-8 bytes behind a length, or in front of a NUL.

use vstd::prelude::*;
use vstd::utf8::{encode_utf8, valid_utf8};
use crate::store::Store;
use crate::wire::{reads_made, uleb_decode, uleb_encode, wrap, zeros, VARINT_LIMIT};

verus! {

/// `std::string::FromUtf8Error`, opaque to the verifier.
#[verifier::external_type_specification]
#[verifier::external_body]
pub struct ExFromUtf8Error(std::string::FromUtf8Error);

/// `String::from_utf8`: `Ok` exactly where the bytes are valid UTF-8, and
/// then the string is made of these very bytes.
#[verifier::external_body]
pub(crate) fn string_from_utf8(bytes: Vec<u8>) -> (res: Result<String, std::string::FromUtf8Error>)
    ensures
        res is Ok <==> valid_utf8(bytes@),
        res is Ok ==> encode_utf8(res->Ok_0@) == bytes@,
{
    String::from_utf8(bytes)
}

/// A string with its length in front: the number of its UTF-8 bytes as an
/// unsigned variable-length integer, then the bytes.
pub open spec fn string_wire(chars: Seq<char>) -> Seq<u8> {
    uleb_encode(encode_utf8(chars).len()) + encode_utf8(chars)
}

/// A string with a NUL behind it: its UTF-8 bytes, then one zero byte.
pub open spec fn cstring_wire(chars: Seq<char>) -> Seq<u8> {
    encode_utf8(chars).push(0u8)
}

/// The length that a length-prefixed string at the read cursor of `s`
/// declares: the unsigned variable-length integer there, cut to 64 bits.
pub open spec fn string_len(s: Store) -> nat {
    wrap(uleb_decode(s.unread(), VARINT_LIMIT as int) as int, 64)
}

/// The store behind the length prefix of a string at the read cursor of `s`.
pub open spec fn string_body(s: Store) -> Store {
    s.advance(reads_made(s.unread(), VARINT_LIMIT as int))
}

/// The bytes of a length-prefixed string at the read cursor of `s`: as many
/// as the prefix declares, zero where the content ends before.
pub open spec fn string_data(s: Store) -> Seq<u8> {
    let body = string_body(s).peek(string_len(s));
    body + zeros((string_len(s) - body.len()) as nat)
}

/// The number of bytes at the front of `s` that are not zero.
pub open spec fn until_nul(s: Seq<u8>) -> nat
    decreases s.len(),
{
    if s.len() > 0 && s[0] != 0 {
        1 + until_nul(s.skip(1))
    } else {
        0
    }
}

/// The bytes of a NUL-terminated string at the read cursor of `s`: all up to
/// the first zero byte, or up to the end of the content where there is none.
pub open spec fn cstring_data(s: Store) -> Seq<u8> {
    s.unread().take(until_nul(s.unread()) as int)
}

/// Where the first `k` bytes of `s` are not zero and the next one is (or `s`
/// ends there), `until_nul(s)` is `k`.
pub proof fn lemma_until_nul_is(s: Seq<u8>, k: nat)
    requires
        k <= s.len(),
        forall|i: int| 0 <= i < k ==> s[i] != 0,
        k == s.len() || s[k as int] == 0,
    ensures
        until_nul(s) == k,
    decreases k,
{
    if k > 0 {
        lemma_until_nul_is(s.skip(1), (k - 1) as nat);
    }
}

} // verus!
