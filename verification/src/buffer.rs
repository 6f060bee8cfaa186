//! The storage backend interface and the buffer that owns one.

use vstd::prelude::*;
use vstd::arithmetic::power2::{lemma2_to64, lemma2_to64_rest};
use num_bigint::{BigInt, BigUint};
use crate::backend_mem::BackendMem;
use vstd::utf8::{decode_utf8, encode_utf8_decode_utf8, valid_utf8};
use crate::bigint::{
    bigint_from_i64, biguint_from_u64, ibig_and, ibig_eq, ibig_from_i64, ibig_shl, ibig_shr,
    ibig_sub, ibig_to_u64, ibig_value, ubig_and, ubig_from_u64, ubig_gt, ubig_shr, ubig_to_u64,
    ubig_value,
};
use crate::text::{
    cstring_data, cstring_wire, lemma_until_nul_is, string_body, string_data, string_from_utf8,
    string_len, string_wire, until_nul,
};
use crate::bits::{lemma_bit_and_low, magnitude};
use crate::store::{
    lemma_advance_next_byte, lemma_after_read_chain, lemma_after_read_widen,
    lemma_after_write_chain, Store,
};
use crate::varint::{ibig_from_digits, ubig_from_digits};
use crate::wire::{
    all_groups, continued, exceeds_limit, groups, le_bytes, le_value, lemma_continued_at_least,
    lemma_continued_is, lemma_le_bytes_u16, lemma_le_bytes_u32, lemma_le_bytes_u64,
    lemma_le_value_padded, lemma_le_value_u16, lemma_le_value_u32, lemma_le_value_u64,
    reads_made, signed, sleb_decode, sleb_encode, uleb_decode, uleb_encode, wrap, zeros,
    VARINT_LIMIT,
};

verus! {

/// `std::io::Error`, opaque to the verifier. Backends hand it through when
/// an operation on the underlying storage fails.
#[verifier::external_type_specification]
#[verifier::external_body]
pub struct ExIoError(std::io::Error);

/// Byte storage with a write cursor and an independent read cursor.
///
/// An implementation says what it holds through `view` and keeps its own
/// representation invariant `inv`. The contracts below are what the buffer
/// relies on; an implementation outside this crate has to meet them.
pub trait Backend {
    /// What the backend holds.
    spec fn view(&self) -> Store;

    /// The representation invariant of the implementation.
    spec fn inv(&self) -> bool;

    /// Releases what the backend owns besides the stored bytes. The store is
    /// left as it is.
    fn close(&mut self)
        requires
            old(self).inv(),
        ensures
            final(self).inv(),
            final(self)@ == old(self)@,
    ;

    /// Resets the backend: drops all content and puts both cursors at 0.
    fn flush(&mut self) -> (res: Result<(), std::io::Error>)
        requires
            old(self).inv(),
        ensures
            final(self).inv(),
            final(self)@.infallible == old(self)@.infallible,
            res is Ok ==> final(self)@ == Store::empty(old(self)@.infallible),
            old(self)@.infallible ==> res is Ok,
    ;

    /// A copy of the whole content. Neither cursor moves.
    fn finish(&mut self) -> (res: Vec<u8>)
        requires
            old(self).inv(),
        ensures
            final(self).inv(),
            final(self)@ == old(self)@,
            old(self)@.infallible ==> res@ == old(self)@.content,
    ;

    /// The write cursor.
    fn wpos(&mut self) -> (res: i64)
        requires
            old(self).inv(),
        ensures
            final(self).inv(),
            final(self)@ == old(self)@,
            res == old(self)@.wpos,
    ;

    /// The read cursor.
    fn rpos(&mut self) -> (res: i64)
        requires
            old(self).inv(),
        ensures
            final(self).inv(),
            final(self)@ == old(self)@,
            res == old(self)@.rpos,
    ;

    /// The number of bytes stored.
    fn size(&mut self) -> (res: i64)
        requires
            old(self).inv(),
        ensures
            final(self).inv(),
            final(self)@ == old(self)@,
            res == old(self)@.content.len(),
    ;

    /// Sets the write cursor. The offset is not held against the size: a
    /// later write past the end extends the content.
    fn seekw(&mut self, v: i64)
        requires
            old(self).inv(),
            v >= 0,
        ensures
            final(self).inv(),
            final(self)@ == old(self)@.seek_write(v as nat),
    ;

    /// Sets the read cursor. The offset is not held against the size: a
    /// later read at or past the end transfers nothing.
    fn seekr(&mut self, v: i64)
        requires
            old(self).inv(),
            v >= 0,
        ensures
            final(self).inv(),
            final(self)@ == old(self)@.seek_read(v as nat),
    ;

    /// Writes `buf` at the write cursor and returns the number of bytes
    /// written. On `Ok(n)` the first `n` bytes of `buf` were written and the
    /// write cursor moved by `n`; on `Err` nothing was written. An
    /// infallible backend writes all of `buf`.
    fn write(&mut self, buf: &[u8]) -> (res: Result<usize, std::io::Error>)
        requires
            old(self).inv(),
            old(self)@.wpos + buf@.len() <= i64::MAX,
        ensures
            final(self).inv(),
            old(self)@.after_write(buf@, final(self)@),
            res matches Ok(n) ==> n <= buf@.len() && final(self)@ == old(self)@.write(
                buf@.take(n as int),
            ),
            res is Err ==> final(self)@ == old(self)@,
            old(self)@.infallible ==> (res matches Ok(n) && n == buf@.len()),
    ;

    /// Reads up to `buf.len()` bytes from the read cursor into the front of
    /// `buf` and returns the number of bytes read; the rest of `buf` keeps
    /// what it held. At or past the end of the content that number is 0. On
    /// `Err` nothing was read. An infallible backend reads all that is
    /// there, up to `buf.len()`.
    fn read(&mut self, buf: &mut [u8]) -> (res: Result<usize, std::io::Error>)
        requires
            old(self).inv(),
        ensures
            final(self).inv(),
            final(buf)@.len() == old(buf)@.len(),
            old(self)@.after_read(old(buf)@.len(), final(self)@),
            res matches Ok(n) ==> {
                &&& n <= old(self)@.readable(old(buf)@.len())
                &&& final(self)@ == old(self)@.advance(n as nat)
                &&& final(buf)@ == old(self)@.peek(n as nat) + old(buf)@.skip(n as int)
            },
            res is Err ==> final(self)@ == old(self)@ && final(buf)@ == old(buf)@,
            old(self)@.infallible ==> (res matches Ok(n) && n == old(self)@.readable(
                old(buf)@.len(),
            )),
    ;
}

/// A byte buffer over one storage backend, which it owns. All state is the
/// backend's: the buffer adds the typed codecs. The kind of backend is fixed
/// when the buffer is made; it is the in-memory backend unless another is
/// named.
pub struct Buffer<B: Backend = BackendMem> {
    backend: B,
}

impl Buffer<BackendMem> {
    /// An empty buffer in memory.
    pub fn new() -> (res: Buffer<BackendMem>)
        ensures
            res.inv(),
            res@ == Store::empty(true),
    {
        Buffer::from_backend(BackendMem::new())
    }

    /// A buffer in memory that holds `v`: the bytes are written into an
    /// empty buffer, so the write cursor stands behind them and the read
    /// cursor at 0.
    pub fn from_vec(v: Vec<u8>) -> (res: Buffer<BackendMem>)
        requires
            v@.len() <= i64::MAX,
        ensures
            res.inv(),
            res@ == Store::empty(true).write(v@),
    {
        let mut buf = Buffer::new();
        let _ = buf.write(v.as_slice());
        buf
    }

    /// A buffer in memory never fails: whatever it holds, its store is
    /// infallible, so every contract of the buffer fixes the whole outcome.
    pub proof fn lemma_infallible(&self)
        ensures
            self@.infallible,
    {
        self.backend.lemma_infallible();
    }
}

impl<B: Backend> Buffer<B> {
    /// What the buffer holds: the store of its backend.
    pub closed spec fn view(&self) -> Store {
        self.backend@
    }

    /// The invariant of the backend. Constructors establish it and every
    /// method keeps it.
    pub closed spec fn inv(&self) -> bool {
        self.backend.inv()
    }

    /// A buffer over the backend given, which it takes over.
    pub fn from_backend(backend: B) -> (res: Buffer<B>)
        requires
            backend.inv(),
        ensures
            res.inv(),
            res@ == backend@,
    {
        Buffer { backend }
    }

    /// Sets the write cursor.
    pub fn seekw(&mut self, v: i64)
        requires
            old(self).inv(),
            v >= 0,
        ensures
            final(self).inv(),
            final(self)@ == old(self)@.seek_write(v as nat),
    {
        self.backend.seekw(v);
    }

    /// Sets the read cursor.
    pub fn seekr(&mut self, v: i64)
        requires
            old(self).inv(),
            v >= 0,
        ensures
            final(self).inv(),
            final(self)@ == old(self)@.seek_read(v as nat),
    {
        self.backend.seekr(v);
    }

    /// The write cursor.
    pub fn wpos(&mut self) -> (res: i64)
        requires
            old(self).inv(),
        ensures
            final(self).inv(),
            final(self)@ == old(self)@,
            res == old(self)@.wpos,
    {
        self.backend.wpos()
    }

    /// The read cursor.
    pub fn rpos(&mut self) -> (res: i64)
        requires
            old(self).inv(),
        ensures
            final(self).inv(),
            final(self)@ == old(self)@,
            res == old(self)@.rpos,
    {
        self.backend.rpos()
    }

    /// The number of bytes stored.
    pub fn size(&mut self) -> (res: i64)
        requires
            old(self).inv(),
        ensures
            final(self).inv(),
            final(self)@ == old(self)@,
            res == old(self)@.content.len(),
    {
        self.backend.size()
    }

    /// A copy of the whole content. The buffer is left as it was: neither
    /// cursor moves, and a second call returns the same bytes.
    pub fn finish(&mut self) -> (res: Vec<u8>)
        requires
            old(self).inv(),
        ensures
            final(self).inv(),
            final(self)@ == old(self)@,
            old(self)@.infallible ==> res@ == old(self)@.content,
    {
        self.backend.finish()
    }

    /// Resets the buffer: drops all content and puts both cursors at 0, as
    /// in a buffer just made.
    pub fn flush(&mut self) -> (res: Result<(), std::io::Error>)
        requires
            old(self).inv(),
        ensures
            final(self).inv(),
            final(self)@.infallible == old(self)@.infallible,
            res is Ok ==> final(self)@ == Store::empty(old(self)@.infallible),
            old(self)@.infallible ==> res is Ok,
    {
        self.backend.flush()
    }

    /// Reads up to `buf.len()` bytes from the read cursor into the front of
    /// `buf` and returns how many were read.
    pub fn read(&mut self, buf: &mut [u8]) -> (res: Result<usize, std::io::Error>)
        requires
            old(self).inv(),
        ensures
            final(self).inv(),
            final(buf)@.len() == old(buf)@.len(),
            old(self)@.after_read(old(buf)@.len(), final(self)@),
            res matches Ok(n) ==> {
                &&& n <= old(self)@.readable(old(buf)@.len())
                &&& final(self)@ == old(self)@.advance(n as nat)
                &&& final(buf)@ == old(self)@.peek(n as nat) + old(buf)@.skip(n as int)
            },
            res is Err ==> final(self)@ == old(self)@ && final(buf)@ == old(buf)@,
            old(self)@.infallible ==> (res matches Ok(n) && n == old(self)@.readable(
                old(buf)@.len(),
            )),
    {
        self.backend.read(buf)
    }

    /// Writes `buf` at the write cursor and returns how many bytes were
    /// written.
    pub fn write(&mut self, buf: &[u8]) -> (res: Result<usize, std::io::Error>)
        requires
            old(self).inv(),
            old(self)@.wpos + buf@.len() <= i64::MAX,
        ensures
            final(self).inv(),
            old(self)@.after_write(buf@, final(self)@),
            res matches Ok(n) ==> n <= buf@.len() && final(self)@ == old(self)@.write(
                buf@.take(n as int),
            ),
            res is Err ==> final(self)@ == old(self)@,
            old(self)@.infallible ==> (res matches Ok(n) && n == buf@.len()),
    {
        self.backend.write(buf)
    }

    /// Writes one byte.
    pub fn write_u8(&mut self, v: u8)
        requires
            old(self).inv(),
            old(self)@.wpos + 1 <= i64::MAX,
        ensures
            final(self).inv(),
            old(self)@.after_write(seq![v], final(self)@),
    {
        let buf: [u8; 1] = [v];
        assert(buf@ =~= seq![v]);
        let _ = self.backend.write(&buf);
    }

    /// Reads one byte. At or past the end of the content, and where the
    /// backend fails, the result is 0 and the read cursor stays.
    pub fn read_u8(&mut self) -> (res: u8)
        requires
            old(self).inv(),
        ensures
            final(self).inv(),
            old(self)@.after_read(1, final(self)@),
            res == if final(self)@ == old(self)@.advance(1) {
                old(self)@.next_byte()
            } else {
                0
            },
    {
        let mut buf = [0u8; 1];
        let _ = self.backend.read(&mut buf);
        buf[0]
    }
}

/// The fixed-width integers, little-endian, the signed ones in two's
/// complement.
impl<B: Backend> Buffer<B> {
    /// Reads up to `buf.len()` bytes into `buf`, which holds zeros on entry.
    /// Behind the bytes read `buf` still holds zeros, so its little-endian
    /// value is that of the bytes read.
    fn read_padded(&mut self, buf: &mut [u8])
        requires
            old(self).inv(),
            old(buf)@ == zeros(old(buf)@.len()),
        ensures
            final(self).inv(),
            final(buf)@.len() == old(buf)@.len(),
            old(self)@.after_read(old(buf)@.len(), final(self)@),
            le_value(final(buf)@) == le_value(
                old(self)@.peek((final(self)@.rpos - old(self)@.rpos) as nat),
            ),
            old(self)@.infallible ==> le_value(final(buf)@) == le_value(
                old(self)@.peek(old(buf)@.len()),
            ),
    {
        let ghost width = buf@.len();
        let ghost start = self@;
        let res = self.backend.read(buf);
        proof {
            let n = (self@.rpos - start.rpos) as nat;
            assert(buf@ =~= start.peek(n) + zeros((width - n) as nat)) by {
                if res is Err {
                    assert(start.peek(0) =~= Seq::<u8>::empty());
                }
            }
            lemma_le_value_padded(start.peek(n), (width - n) as nat);
            if start.infallible {
                assert(start.peek(n) =~= start.peek(width));
            }
        }
    }

    /// Writes `v` in eight bytes, low byte first.
    pub fn write_u64(&mut self, v: u64)
        requires
            old(self).inv(),
            old(self)@.wpos + 8 <= i64::MAX,
        ensures
            final(self).inv(),
            old(self)@.after_write(le_bytes(v as nat, 8), final(self)@),
    {
        let buf: [u8; 8] = [
            v as u8,
            (v >> 8) as u8,
            (v >> 16) as u8,
            (v >> 24) as u8,
            (v >> 32) as u8,
            (v >> 40) as u8,
            (v >> 48) as u8,
            (v >> 56) as u8,
        ];
        proof {
            lemma_le_bytes_u64(v);
            assert(buf@ =~= le_bytes(v as nat, 8));
        }
        let _ = self.backend.write(&buf);
    }

    /// Writes `v` in eight bytes, low byte first, in two's complement.
    pub fn write_i64(&mut self, v: i64)
        requires
            old(self).inv(),
            old(self)@.wpos + 8 <= i64::MAX,
        ensures
            final(self).inv(),
            old(self)@.after_write(le_bytes(wrap(v as int, 64), 8), final(self)@),
    {
        proof {
            lemma2_to64();
            assert(v >= 0 ==> v as u64 == v) by (bit_vector);
            assert(v < 0 ==> v as u64 == v + 0x1_0000_0000_0000_0000) by (bit_vector);
        }
        self.write_u64(v as u64);
    }

    /// Writes `v` in four bytes, low byte first.
    pub fn write_u32(&mut self, v: u32)
        requires
            old(self).inv(),
            old(self)@.wpos + 4 <= i64::MAX,
        ensures
            final(self).inv(),
            old(self)@.after_write(le_bytes(v as nat, 4), final(self)@),
    {
        let buf: [u8; 4] = [v as u8, (v >> 8) as u8, (v >> 16) as u8, (v >> 24) as u8];
        proof {
            lemma_le_bytes_u32(v);
            assert(buf@ =~= le_bytes(v as nat, 4));
        }
        let _ = self.backend.write(&buf);
    }

    /// Writes `v` in four bytes, low byte first, in two's complement.
    pub fn write_i32(&mut self, v: i32)
        requires
            old(self).inv(),
            old(self)@.wpos + 4 <= i64::MAX,
        ensures
            final(self).inv(),
            old(self)@.after_write(le_bytes(wrap(v as int, 32), 4), final(self)@),
    {
        proof {
            lemma2_to64();
            assert(v >= 0 ==> v as u32 == v) by (bit_vector);
            assert(v < 0 ==> v as u32 == v + 0x1_0000_0000) by (bit_vector);
        }
        self.write_u32(v as u32);
    }

    /// Writes `v` in two bytes, low byte first.
    pub fn write_u16(&mut self, v: u16)
        requires
            old(self).inv(),
            old(self)@.wpos + 2 <= i64::MAX,
        ensures
            final(self).inv(),
            old(self)@.after_write(le_bytes(v as nat, 2), final(self)@),
    {
        let buf: [u8; 2] = [v as u8, (v >> 8) as u8];
        proof {
            lemma_le_bytes_u16(v);
            assert(buf@ =~= le_bytes(v as nat, 2));
        }
        let _ = self.backend.write(&buf);
    }

    /// Writes `v` in two bytes, low byte first, in two's complement.
    pub fn write_i16(&mut self, v: i16)
        requires
            old(self).inv(),
            old(self)@.wpos + 2 <= i64::MAX,
        ensures
            final(self).inv(),
            old(self)@.after_write(le_bytes(wrap(v as int, 16), 2), final(self)@),
    {
        proof {
            lemma2_to64();
            assert(v >= 0 ==> v as u16 == v) by (bit_vector);
            assert(v < 0 ==> v as u16 == v + 0x1_0000) by (bit_vector);
        }
        self.write_u16(v as u16);
    }

    /// Reads eight bytes as a little-endian integer. Bytes that are not
    /// there count as zero: the result is the value of the bytes that the
    /// read cursor has moved past.
    pub fn read_u64(&mut self) -> (res: u64)
        requires
            old(self).inv(),
        ensures
            final(self).inv(),
            old(self)@.after_read(8, final(self)@),
            res == le_value(old(self)@.peek((final(self)@.rpos - old(self)@.rpos) as nat)),
            old(self)@.infallible ==> res == le_value(old(self)@.peek(8)),
    {
        let mut b = [0u8; 8];
        assert(b@ =~= zeros(8));
        self.read_padded(&mut b);
        proof {
            lemma_le_value_u64(b@);
        }
        (b[0] as u64)
            | (b[1] as u64) << 8
            | (b[2] as u64) << 16
            | (b[3] as u64) << 24
            | (b[4] as u64) << 32
            | (b[5] as u64) << 40
            | (b[6] as u64) << 48
            | (b[7] as u64) << 56
    }

    /// Reads four bytes as a little-endian integer. Bytes that are not
    /// there count as zero.
    pub fn read_u32(&mut self) -> (res: u32)
        requires
            old(self).inv(),
        ensures
            final(self).inv(),
            old(self)@.after_read(4, final(self)@),
            res == le_value(old(self)@.peek((final(self)@.rpos - old(self)@.rpos) as nat)),
            old(self)@.infallible ==> res == le_value(old(self)@.peek(4)),
    {
        let mut b = [0u8; 4];
        assert(b@ =~= zeros(4));
        self.read_padded(&mut b);
        proof {
            lemma_le_value_u32(b@);
        }
        (b[0] as u32) | (b[1] as u32) << 8 | (b[2] as u32) << 16 | (b[3] as u32) << 24
    }

    /// Reads two bytes as a little-endian integer. Bytes that are not there
    /// count as zero.
    pub fn read_u16(&mut self) -> (res: u16)
        requires
            old(self).inv(),
        ensures
            final(self).inv(),
            old(self)@.after_read(2, final(self)@),
            res == le_value(old(self)@.peek((final(self)@.rpos - old(self)@.rpos) as nat)),
            old(self)@.infallible ==> res == le_value(old(self)@.peek(2)),
    {
        let mut b = [0u8; 2];
        assert(b@ =~= zeros(2));
        self.read_padded(&mut b);
        proof {
            lemma_le_value_u16(b@);
        }
        (b[0] as u16) | (b[1] as u16) << 8
    }

    /// Reads eight bytes as a little-endian integer in two's complement.
    /// Bytes that are not there count as zero.
    pub fn read_i64(&mut self) -> (res: i64)
        requires
            old(self).inv(),
        ensures
            final(self).inv(),
            old(self)@.after_read(8, final(self)@),
            res == signed(
                le_value(old(self)@.peek((final(self)@.rpos - old(self)@.rpos) as nat)),
                64,
            ),
            old(self)@.infallible ==> res == signed(le_value(old(self)@.peek(8)), 64),
    {
        let u = self.read_u64();
        proof {
            lemma2_to64();
            lemma2_to64_rest();
            assert(u < 0x8000_0000_0000_0000 ==> u as i64 == u) by (bit_vector);
            assert(u >= 0x8000_0000_0000_0000 ==> u as i64 == u - 0x1_0000_0000_0000_0000)
                by (bit_vector);
        }
        u as i64
    }

    /// Reads four bytes as a little-endian integer in two's complement.
    /// Bytes that are not there count as zero.
    pub fn read_i32(&mut self) -> (res: i32)
        requires
            old(self).inv(),
        ensures
            final(self).inv(),
            old(self)@.after_read(4, final(self)@),
            res == signed(
                le_value(old(self)@.peek((final(self)@.rpos - old(self)@.rpos) as nat)),
                32,
            ),
            old(self)@.infallible ==> res == signed(le_value(old(self)@.peek(4)), 32),
    {
        let u = self.read_u32();
        proof {
            lemma2_to64();
            assert(u < 0x8000_0000 ==> u as i32 == u) by (bit_vector);
            assert(u >= 0x8000_0000 ==> u as i32 == u - 0x1_0000_0000) by (bit_vector);
        }
        u as i32
    }

    /// Reads two bytes as a little-endian integer in two's complement.
    /// Bytes that are not there count as zero.
    pub fn read_i16(&mut self) -> (res: i16)
        requires
            old(self).inv(),
        ensures
            final(self).inv(),
            old(self)@.after_read(2, final(self)@),
            res == signed(
                le_value(old(self)@.peek((final(self)@.rpos - old(self)@.rpos) as nat)),
                16,
            ),
            old(self)@.infallible ==> res == signed(le_value(old(self)@.peek(2)), 16),
    {
        let u = self.read_u16();
        proof {
            lemma2_to64();
            assert(u < 0x8000 ==> u as i16 == u) by (bit_vector);
            assert(u >= 0x8000 ==> u as i16 == u - 0x1_0000) by (bit_vector);
        }
        u as i16
    }
}

/// The variable-length integers.
impl<B: Backend> Buffer<B> {
    /// Writes `v` as an unsigned variable-length integer: while the value
    /// that remains does not fit in seven bits, its low seven bits go out
    /// with the continuation bit set and the value is shifted right by seven
    /// bits; what remains goes out as the last byte, the only one with the
    /// continuation bit clear.
    pub fn write_ubig(&mut self, v: BigUint)
        requires
            old(self).inv(),
            old(self)@.wpos + uleb_encode(ubig_value(v)).len() <= i64::MAX,
        ensures
            final(self).inv(),
            old(self)@.after_write(uleb_encode(ubig_value(v)), final(self)@),
    {
        let mut x = v;
        let mask = ubig_from_u64(0x7F).unwrap();
        let max = ubig_from_u64(0x7F).unwrap();
        let ghost mut written: Seq<u8> = Seq::empty();
        assert(written + uleb_encode(ubig_value(x)) =~= uleb_encode(ubig_value(v)));
        while ubig_gt(&x, &max)
            invariant
                self.inv(),
                old(self)@.after_write(written, self@),
                written + uleb_encode(ubig_value(x)) == uleb_encode(ubig_value(v)),
                old(self)@.wpos + uleb_encode(ubig_value(v)).len() <= i64::MAX,
                ubig_value(mask) == 0x7F,
                ubig_value(max) == 0x7F,
            decreases ubig_value(x),
        {
            let ghost before = self@;
            let ghost value = ubig_value(x);
            proof {
                lemma2_to64();
                lemma_bit_and_low(value as int, 7);
            }
            let low = ubig_to_u64(&ubig_and(&x, &mask)).unwrap();
            let byte = low as u8 | 0x80;
            assert(byte == (low + 128) as u8) by (bit_vector)
                requires
                    low < 128,
                    byte == low as u8 | 0x80,
            ;
            self.write_u8(byte);
            x = ubig_shr(&x, 7);
            proof {
                lemma_after_write_chain(old(self)@, written, before, seq![byte], self@);
                assert(written.push(byte) =~= written + seq![byte]);
                assert(written.push(byte) + uleb_encode(value / 128) =~= written + uleb_encode(
                    value,
                ));
                written = written.push(byte);
            }
        }
        let ghost before = self@;
        let last = ubig_to_u64(&x).unwrap() as u8;
        self.write_u8(last);
        proof {
            lemma_after_write_chain(old(self)@, written, before, seq![last], self@);
        }
    }

    /// Writes `v` as a signed variable-length integer in two's complement:
    /// the low seven bits go out and the value is shifted right by seven
    /// bits, arithmetically, until what remains is 0 with the sign bit
    /// (0x40) of the group just taken clear, or -1 with it set. Every byte
    /// but the last carries the continuation bit.
    pub fn write_ibig(&mut self, v: BigInt)
        requires
            old(self).inv(),
            old(self)@.wpos + sleb_encode(ibig_value(v)).len() <= i64::MAX,
        ensures
            final(self).inv(),
            old(self)@.after_write(sleb_encode(ibig_value(v)), final(self)@),
    {
        let mut x = v;
        let zero = ibig_from_i64(0).unwrap();
        let minus_one = ibig_from_i64(-1).unwrap();
        let mask = ibig_from_i64(0x7F).unwrap();
        let ghost mut written: Seq<u8> = Seq::empty();
        assert(written + sleb_encode(ibig_value(x)) =~= sleb_encode(ibig_value(v)));
        loop
            invariant_except_break
                self.inv(),
                old(self)@.after_write(written, self@),
                written + sleb_encode(ibig_value(x)) == sleb_encode(ibig_value(v)),
                old(self)@.wpos + sleb_encode(ibig_value(v)).len() <= i64::MAX,
                ibig_value(zero) == 0,
                ibig_value(minus_one) == -1,
                ibig_value(mask) == 0x7F,
            ensures
                self.inv(),
                old(self)@.after_write(sleb_encode(ibig_value(v)), self@),
            decreases magnitude(ibig_value(x)),
        {
            let ghost before = self@;
            let ghost value = ibig_value(x);
            proof {
                lemma2_to64();
                lemma_bit_and_low(value, 7);
            }
            let group = ibig_to_u64(&ibig_and(&x, &mask)).unwrap();
            let mut byte = group as u8;
            x = ibig_shr(&x, 7);
            assert({
                &&& byte & 0x40 == 0 <==> group < 64
                &&& byte & 0x80 == 0
                &&& byte | 0x80 == (group + 128) as u8
                &&& (byte | 0x80) & 0x80 != 0
            }) by (bit_vector)
                requires
                    group < 128,
                    byte == group as u8,
            ;
            let settled = (ibig_eq(&x, &zero) && byte & 0x40 == 0) || (ibig_eq(&x, &minus_one)
                && byte & 0x40 != 0);
            if !settled {
                byte |= 0x80;
            }
            self.write_u8(byte);
            proof {
                lemma_after_write_chain(old(self)@, written, before, seq![byte], self@);
                assert(written.push(byte) =~= written + seq![byte]);
                if byte & 0x80 != 0 {
                    assert(written.push(byte) + sleb_encode(value / 128) =~= written
                        + sleb_encode(value));
                }
                written = written.push(byte);
            }
            if byte & 0x80 == 0 {
                break ;
            }
        }
    }

    /// Reads an unsigned variable-length integer: bytes are read one at a
    /// time up to the first without the continuation bit, and their
    /// seven-bit groups make up the value, least significant first. With a
    /// positive `limit`, an encoding of more than `limit` bytes is given up
    /// after `limit + 1` bytes, and the result is 0. A `limit` of 0 or less
    /// sets no bound: the read ends at the latest where the content ends.
    pub fn read_ubig(&mut self, limit: i32) -> (res: BigUint)
        requires
            old(self).inv(),
        ensures
            final(self).inv(),
            old(self)@.after_read(reads_made(old(self)@.unread(), limit as int), final(self)@),
            old(self)@.infallible ==> ubig_value(res) == uleb_decode(
                old(self)@.unread(),
                limit as int,
            ),
    {
        let ghost start = self@;
        let ghost unread = start.unread();
        let mut digits: Vec<u8> = Vec::new();
        let mut off: i32 = 0;
        loop
            invariant_except_break
                self.inv(),
                start == old(self)@,
                unread == start.unread(),
                digits@.len() <= unread.len(),
                self@ == start.advance(digits@.len()),
                forall|i: int| 0 <= i < digits@.len() ==> unread[i] >= 0x80,
                forall|i: int| 0 <= i < digits@.len() ==> digits@[i] == unread[i] % 128,
                limit > 0 ==> off == digits@.len() && off <= limit,
            ensures
                self.inv(),
                all_groups(digits@),
                start.after_read(reads_made(unread, limit as int), self@),
                start.infallible ==> !exceeds_limit(unread, limit as int) && digits@ == groups(
                    unread,
                    continued(unread) + 1,
                ),
            decreases unread.len() - digits@.len(),
        {
            let ghost seen = digits@.len();
            let ghost before = self@;
            let byte = self.read_u8();
            proof {
                lemma_advance_next_byte(start, seen);
                lemma_after_read_chain(start, seen, before, 1, self@);
                lemma_continued_at_least(unread, seen);
            }
            if limit > 0 {
                if off >= limit {
                    return ubig_from_u64(0).unwrap();
                }
                off += 1;
            }
            assert(byte & 0x7F == byte % 128) by (bit_vector);
            digits.push(byte & 0x7F);
            if byte < 128 {
                proof {
                    if start.infallible {
                        lemma_continued_is(unread, seen);
                        assert(digits@ =~= groups(unread, seen + 1));
                    } else {
                        lemma_after_read_widen(
                            start,
                            seen + 1,
                            self@,
                            reads_made(unread, limit as int),
                        );
                    }
                }
                break ;
            }
        }
        ubig_from_digits(&digits)
    }

    /// Reads a signed variable-length integer: bytes are read one at a time
    /// up to the first without the continuation bit, their seven-bit groups
    /// make up an unsigned value, least significant first, and where the
    /// sign bit (0x40) of the last group is set, two to the number of bits
    /// read is subtracted from it. With a positive `limit`, an encoding of
    /// more than `limit` bytes is given up after `limit + 1` bytes, and the
    /// result is 0. A `limit` of 0 or less sets no bound: the read ends at
    /// the latest where the content ends.
    pub fn read_ibig(&mut self, limit: i32) -> (res: BigInt)
        requires
            old(self).inv(),
        ensures
            final(self).inv(),
            old(self)@.after_read(
                reads_made(old(self)@.unread(), limit as int),
                final(self)@,
            ),
            old(self)@.infallible ==> ibig_value(res) == sleb_decode(
                old(self)@.unread(),
                limit as int,
            ),
    {
        let ghost start = self@;
        let ghost unread = start.unread();
        let mut digits: Vec<u8> = Vec::new();
        let mut off: i32 = 0;
        loop
            invariant_except_break
                self.inv(),
                start == old(self)@,
                unread == start.unread(),
                digits@.len() <= unread.len(),
                self@ == start.advance(digits@.len()),
                forall|i: int| 0 <= i < digits@.len() ==> unread[i] >= 0x80,
                forall|i: int| 0 <= i < digits@.len() ==> digits@[i] == unread[i] % 128,
                limit > 0 ==> off == digits@.len() && off <= limit,
            ensures
                self.inv(),
                digits@.len() > 0,
                all_groups(digits@),
                start.after_read(reads_made(unread, limit as int), self@),
                start.infallible ==> !exceeds_limit(unread, limit as int) && digits@ == groups(
                    unread,
                    continued(unread) + 1,
                ),
            decreases unread.len() - digits@.len(),
        {
            let ghost seen = digits@.len();
            let ghost before = self@;
            let byte = self.read_u8();
            proof {
                lemma_advance_next_byte(start, seen);
                lemma_after_read_chain(start, seen, before, 1, self@);
                lemma_continued_at_least(unread, seen);
            }
            if limit > 0 {
                if off >= limit {
                    return ibig_from_i64(0).unwrap();
                }
                off += 1;
            }
            assert(byte & 0x7F == byte % 128 && (byte & 0x80 == 0 <==> byte < 128))
                by (bit_vector);
            digits.push(byte & 0x7F);
            if byte & 0x80 == 0 {
                proof {
                    if start.infallible {
                        lemma_continued_is(unread, seen);
                        assert(digits@ =~= groups(unread, seen + 1));
                    } else {
                        lemma_after_read_widen(
                            start,
                            seen + 1,
                            self@,
                            reads_made(unread, limit as int),
                        );
                    }
                }
                break ;
            }
        }
        ibig_from_digits(&digits)
    }
}

/// The 64-bit variable-length integers, booleans and strings.
impl<B: Backend> Buffer<B> {
    /// Writes `v` as a signed variable-length integer.
    pub fn write_i(&mut self, v: i64)
        requires
            old(self).inv(),
            old(self)@.wpos + sleb_encode(v as int).len() <= i64::MAX,
        ensures
            final(self).inv(),
            old(self)@.after_write(sleb_encode(v as int), final(self)@),
    {
        self.write_ibig(bigint_from_i64(v));
    }

    /// Writes `v` as an unsigned variable-length integer.
    pub fn write_u(&mut self, v: u64)
        requires
            old(self).inv(),
            old(self)@.wpos + uleb_encode(v as nat).len() <= i64::MAX,
        ensures
            final(self).inv(),
            old(self)@.after_write(uleb_encode(v as nat), final(self)@),
    {
        self.write_ubig(biguint_from_u64(v));
    }

    /// Reads a signed variable-length integer of at most `VARINT_LIMIT`
    /// bytes and cuts it to 64 bits in two's complement.
    pub fn read_i(&mut self) -> (res: i64)
        requires
            old(self).inv(),
        ensures
            final(self).inv(),
            old(self)@.after_read(
                reads_made(old(self)@.unread(), VARINT_LIMIT as int),
                final(self)@,
            ),
            old(self)@.infallible ==> res == signed(
                wrap(sleb_decode(old(self)@.unread(), VARINT_LIMIT as int), 64),
                64,
            ),
    {
        let value = self.read_ibig(VARINT_LIMIT);
        let one = ibig_from_i64(1).unwrap();
        let mask = ibig_sub(&ibig_shl(&one, 64), &one);
        proof {
            lemma2_to64();
            lemma2_to64_rest();
            lemma_bit_and_low(ibig_value(value), 64);
        }
        let bits = ibig_to_u64(&ibig_and(&value, &mask)).unwrap();
        proof {
            assert(bits < 0x8000_0000_0000_0000 ==> bits as i64 == bits) by (bit_vector);
            assert(bits >= 0x8000_0000_0000_0000 ==> bits as i64 == bits
                - 0x1_0000_0000_0000_0000) by (bit_vector);
        }
        bits as i64
    }

    /// Reads an unsigned variable-length integer of at most `VARINT_LIMIT`
    /// bytes and cuts it to 64 bits.
    pub fn read_u(&mut self) -> (res: u64)
        requires
            old(self).inv(),
        ensures
            final(self).inv(),
            old(self)@.after_read(
                reads_made(old(self)@.unread(), VARINT_LIMIT as int),
                final(self)@,
            ),
            old(self)@.infallible ==> res == wrap(
                uleb_decode(old(self)@.unread(), VARINT_LIMIT as int) as int,
                64,
            ),
    {
        let value = self.read_ubig(VARINT_LIMIT);
        let mask = ubig_from_u64(u64::MAX).unwrap();
        proof {
            lemma2_to64();
            lemma_bit_and_low(ubig_value(value) as int, 64);
        }
        ubig_to_u64(&ubig_and(&value, &mask)).unwrap()
    }

    /// Writes `s` with its length in front: the number of its UTF-8 bytes
    /// as an unsigned variable-length integer, then the bytes.
    pub fn write_string(&mut self, s: String)
        requires
            old(self).inv(),
            old(self)@.wpos + string_wire(s@).len() <= i64::MAX,
        ensures
            final(self).inv(),
            old(self)@.after_write(string_wire(s@), final(self)@),
    {
        let ghost start = self@;
        let arr = s.as_str().as_bytes();
        self.write_u(arr.len() as u64);
        let ghost middle = self@;
        let _ = self.write(arr);
        proof {
            lemma_after_write_chain(start, uleb_encode(arr@.len()), middle, arr@, self@);
        }
    }

    /// Reads a string with its length in front. The bytes that the length
    /// asks for and the content does not hold count as zero.
    pub fn read_string(&mut self) -> (res: String)
        requires
            old(self).inv(),
            old(self)@.infallible,
            string_len(old(self)@) <= isize::MAX,
            valid_utf8(string_data(old(self)@)),
        ensures
            final(self).inv(),
            final(self)@ == string_body(old(self)@).advance(string_len(old(self)@)),
            res@ == decode_utf8(string_data(old(self)@)),
    {
        let ghost start = self@;
        let sz = self.read_u() as usize;
        let mut bytes = vec![0u8; sz];
        assert(bytes@ =~= zeros(sz as nat));
        let ghost body = self@;
        let _ = self.read(bytes.as_mut_slice());
        proof {
            let n = body.readable(sz as nat);
            assert(body.peek(n) =~= body.peek(sz as nat));
            assert(bytes@ =~= string_data(start));
        }
        let res = string_from_utf8(bytes).unwrap();
        proof {
            encode_utf8_decode_utf8(res@);
        }
        res
    }

    /// Reads one byte as a boolean: 1 is true, anything else false.
    pub fn read_bool(&mut self) -> (res: bool)
        requires
            old(self).inv(),
        ensures
            final(self).inv(),
            old(self)@.after_read(1, final(self)@),
            res == (final(self)@ == old(self)@.advance(1) && old(self)@.next_byte() == 1),
            old(self)@.infallible ==> res == (old(self)@.next_byte() == 1),
    {
        self.read_u8() == 1
    }

    /// Writes a boolean as one byte: 1 for true, 0 for false.
    pub fn write_bool(&mut self, v: bool)
        requires
            old(self).inv(),
            old(self)@.wpos + 1 <= i64::MAX,
        ensures
            final(self).inv(),
            old(self)@.after_write(seq![if v { 1u8 } else { 0u8 }], final(self)@),
    {
        if v {
            self.write_u8(1);
        } else {
            self.write_u8(0);
        }
    }

    /// Writes `v` with a NUL behind it: its UTF-8 bytes, then one zero byte.
    pub fn write_cstring(&mut self, v: String)
        requires
            old(self).inv(),
            old(self)@.wpos + cstring_wire(v@).len() <= i64::MAX,
        ensures
            final(self).inv(),
            old(self)@.after_write(cstring_wire(v@), final(self)@),
    {
        let ghost start = self@;
        let arr = v.as_str().as_bytes();
        let _ = self.write(arr);
        let ghost middle = self@;
        self.write_u8(0);
        proof {
            lemma_after_write_chain(start, arr@, middle, seq![0u8], self@);
            assert(arr@ + seq![0u8] =~= cstring_wire(v@));
        }
    }

    /// Reads a NUL-terminated string: the bytes up to the first zero byte,
    /// which is read too, or up to the end of the content.
    pub fn read_cstring(&mut self) -> (res: String)
        requires
            old(self).inv(),
            old(self)@.infallible,
            valid_utf8(cstring_data(old(self)@)),
        ensures
            final(self).inv(),
            final(self)@ == old(self)@.advance(until_nul(old(self)@.unread()) + 1),
            res@ == decode_utf8(cstring_data(old(self)@)),
    {
        let ghost start = self@;
        let ghost unread = start.unread();
        let mut svec: Vec<u8> = Vec::new();
        loop
            invariant_except_break
                self.inv(),
                start == old(self)@,
                start.infallible,
                unread == start.unread(),
                svec@.len() <= unread.len(),
                self@ == start.advance(svec@.len()),
                svec@ == unread.take(svec@.len() as int),
                forall|i: int| 0 <= i < svec@.len() ==> unread[i] != 0,
            ensures
                self.inv(),
                self@ == start.advance(until_nul(unread) + 1),
                svec@ == cstring_data(start),
            decreases unread.len() - svec@.len(),
        {
            let ghost seen = svec@.len();
            let byte = self.read_u8();
            proof {
                lemma_advance_next_byte(start, seen);
            }
            if byte == 0 {
                proof {
                    lemma_until_nul_is(unread, seen);
                }
                break ;
            }
            svec.push(byte);
            assert(svec@ =~= unread.take(svec@.len() as int));
        }
        let res = string_from_utf8(svec).unwrap();
        proof {
            encode_utf8_decode_utf8(res@);
        }
        res
    }
}

} // verus!
