//! The mathematical model of a byte store with two cursors.
//!
//! Contracts of backends and of the buffer speak of a [`Store`]: the bytes
//! held, where the next read and the next write take place, and whether the
//! backend can fail.

use vstd::prelude::*;

verus! {

/// What a storage backend holds, as a contract sees it.
pub struct Store {
    /// The stored bytes, from offset 0.
    pub content: Seq<u8>,
    /// Offset of the next byte to read.
    pub rpos: nat,
    /// Offset at which the next write starts.
    pub wpos: nat,
    /// Whether every operation on the backend succeeds and transfers all it
    /// was asked to. True of an in-memory backend; a backend that performs
    /// I/O cannot promise it.
    pub infallible: bool,
}

/// The byte at index `i` of `s`, or 0 where `s` has no such byte: a read
/// past the end of the content yields zero.
pub open spec fn byte_or_zero(s: Seq<u8>, i: int) -> u8 {
    if 0 <= i < s.len() {
        s[i]
    } else {
        0
    }
}

/// `data` laid over `base` from offset `at` on. Offsets between the end of
/// `base` and `at` are filled with zero bytes.
pub open spec fn overlay(base: Seq<u8>, at: nat, data: Seq<u8>) -> Seq<u8> {
    Seq::new(
        if base.len() >= at + data.len() {
            base.len()
        } else {
            at + data.len()
        },
        |i: int|
            if at <= i < at + data.len() {
                data[i - at]
            } else if i < base.len() {
                base[i]
            } else {
                0u8
            },
    )
}

impl Store {
    /// A store without content, both cursors at 0.
    pub open spec fn empty(infallible: bool) -> Store {
        Store { content: Seq::empty(), rpos: 0, wpos: 0, infallible }
    }

    /// Number of bytes between the read cursor and the end of the content.
    pub open spec fn available(self) -> nat {
        if self.rpos < self.content.len() {
            (self.content.len() - self.rpos) as nat
        } else {
            0
        }
    }

    /// Number of bytes that a read of `n` bytes transfers.
    pub open spec fn readable(self, n: nat) -> nat {
        if n <= self.available() {
            n
        } else {
            self.available()
        }
    }

    /// The bytes that a read of `n` bytes transfers: up to `n` bytes from the
    /// read cursor on, fewer where the content ends before.
    pub open spec fn peek(self, n: nat) -> Seq<u8> {
        Seq::new(self.readable(n), |i: int| self.content[self.rpos + i])
    }

    /// All bytes from the read cursor to the end of the content.
    pub open spec fn unread(self) -> Seq<u8> {
        self.peek(self.available())
    }

    /// The byte under the read cursor, or 0 at or past the end of the
    /// content.
    pub open spec fn next_byte(self) -> u8 {
        byte_or_zero(self.content, self.rpos as int)
    }

    /// The store after a read of `n` bytes: the read cursor has moved past
    /// the bytes transferred.
    pub open spec fn advance(self, n: nat) -> Store {
        Store { rpos: self.rpos + self.readable(n), ..self }
    }

    /// The store with its read cursor set to `pos`.
    pub open spec fn seek_read(self, pos: nat) -> Store {
        Store { rpos: pos, ..self }
    }

    /// The store with its write cursor set to `pos`.
    pub open spec fn seek_write(self, pos: nat) -> Store {
        Store { wpos: pos, ..self }
    }

    /// The store after `data` was written at the write cursor: the bytes
    /// replace what was there and extend the content where they reach past
    /// its end, and the write cursor has moved past them. A write that starts
    /// past the end fills the gap with zero bytes. Writing nothing changes
    /// nothing.
    pub open spec fn write(self, data: Seq<u8>) -> Store {
        if data.len() == 0 {
            self
        } else {
            Store {
                content: overlay(self.content, self.wpos, data),
                wpos: self.wpos + data.len(),
                ..self
            }
        }
    }

    /// `after` is a state in which writing `data` to `self` may leave the
    /// backend. Whatever the backend did, the read cursor has not moved, the
    /// write cursor has moved forward by at most `data.len()`, the content
    /// has not become shorter, and the bytes in front of the write cursor
    /// are what they were. On an infallible backend `after` is exactly
    /// `self.write(data)`.
    pub open spec fn after_write(self, data: Seq<u8>, after: Store) -> bool {
        &&& after.infallible == self.infallible
        &&& after.rpos == self.rpos
        &&& self.wpos <= after.wpos <= self.wpos + data.len()
        &&& self.content.len() <= after.content.len()
        &&& forall|i: int|
            0 <= i < self.content.len() && i < self.wpos ==> after.content[i] == self.content[i]
        &&& self.infallible ==> after == self.write(data)
    }

    /// `after` is a state in which reading up to `n` bytes from `self` may
    /// leave the backend. Content and write cursor never change and the read
    /// cursor moves forward by at most the bytes available; on an infallible
    /// backend `after` is exactly `self.advance(n)`.
    pub open spec fn after_read(self, n: nat, after: Store) -> bool {
        &&& after.infallible == self.infallible
        &&& after.content == self.content
        &&& after.wpos == self.wpos
        &&& self.rpos <= after.rpos <= self.advance(n).rpos
        &&& self.infallible ==> after == self.advance(n)
    }
}

/// Writing `a` and then `b` is writing their concatenation.
pub proof fn lemma_write_write(s: Store, a: Seq<u8>, b: Seq<u8>)
    ensures
        s.write(a).write(b) == s.write(a + b),
{
    if a.len() == 0 {
        assert(a + b =~= b);
    } else if b.len() == 0 {
        assert(a + b =~= a);
    } else {
        assert(s.write(a).write(b).content =~= s.write(a + b).content);
    }
}

/// Two writes in a row leave the backend as one write of the concatenation
/// may.
pub proof fn lemma_after_write_chain(s: Store, a: Seq<u8>, t: Store, b: Seq<u8>, u: Store)
    requires
        s.after_write(a, t),
        t.after_write(b, u),
    ensures
        s.after_write(a + b, u),
{
    lemma_write_write(s, a, b);
}

/// Reading `m` bytes and then `n` bytes is reading `m + n` bytes.
pub proof fn lemma_advance_advance(s: Store, m: nat, n: nat)
    ensures
        s.advance(m).advance(n) == s.advance(m + n),
        s.peek(m) + s.advance(m).peek(n) == s.peek(m + n),
{
    assert(s.peek(m) + s.advance(m).peek(n) =~= s.peek(m + n));
}

/// After `k` bytes that were there, the byte under the read cursor is the
/// one at index `k` of what was unread before.
pub proof fn lemma_advance_next_byte(s: Store, k: nat)
    requires
        k <= s.available(),
    ensures
        s.advance(k).next_byte() == byte_or_zero(s.unread(), k as int),
        s.advance(k).advance(1) == s.advance(k + 1),
        s.advance(k).rpos == s.rpos + k,
{
    lemma_advance_advance(s, k, 1);
}

/// On a backend that may fail, what a read of `m` bytes may leave, a read
/// of more bytes may leave too.
pub proof fn lemma_after_read_widen(s: Store, m: nat, t: Store, n: nat)
    requires
        s.after_read(m, t),
        m <= n,
        !s.infallible,
    ensures
        s.after_read(n, t),
{
}

/// Two reads in a row leave the backend as one read of the sum may.
pub proof fn lemma_after_read_chain(s: Store, m: nat, t: Store, n: nat, u: Store)
    requires
        s.after_read(m, t),
        t.after_read(n, u),
    ensures
        s.after_read(m + n, u),
{
    lemma_advance_advance(s, m, n);
}

} // verus!
