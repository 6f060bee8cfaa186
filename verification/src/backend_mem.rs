//! The in-memory backend: a growable byte vector and two cursors.

use vstd::prelude::*;
use crate::buffer::Backend;
use crate::store::{overlay, Store};

verus! {

/// A backend that keeps its content in memory. It never fails.
pub struct BackendMem {
    w: i64,
    r: i64,
    buf: Vec<u8>,
}

impl BackendMem {
    /// An empty backend, both cursors at 0.
    pub fn new() -> (res: BackendMem)
        ensures
            res.inv(),
            res@ == Store::empty(true),
    {
        BackendMem { w: 0, r: 0, buf: Vec::new() }
    }

    /// An in-memory backend never fails: whatever it holds, its store is
    /// infallible.
    pub proof fn lemma_infallible(&self)
        ensures
            self@.infallible,
    {
    }
}

impl Backend for BackendMem {
    closed spec fn view(&self) -> Store {
        Store { content: self.buf@, rpos: self.r as nat, wpos: self.w as nat, infallible: true }
    }

    closed spec fn inv(&self) -> bool {
        &&& 0 <= self.r
        &&& 0 <= self.w
        &&& self.buf.len() <= i64::MAX
    }

    fn wpos(&mut self) -> (res: i64) {
        self.w
    }

    fn rpos(&mut self) -> (res: i64) {
        self.r
    }

    fn seekw(&mut self, v: i64) {
        self.w = v
    }

    fn seekr(&mut self, v: i64) {
        self.r = v
    }

    fn close(&mut self) {
    }

    fn size(&mut self) -> (res: i64) {
        self.buf.len() as i64
    }

    fn flush(&mut self) -> (res: Result<(), std::io::Error>) {
        self.w = 0;
        self.r = 0;
        self.buf.truncate(0);
        assert(self.buf@ =~= Seq::<u8>::empty());
        Ok(())
    }

    fn finish(&mut self) -> (res: Vec<u8>) {
        self.buf.clone()
    }

    fn read(&mut self, buf: &mut [u8]) -> (res: Result<usize, std::io::Error>) {
        let mut beenread: usize = 0;
        while beenread < buf.len() && self.r < self.buf.len() as i64
            invariant
                old(self).inv(),
                self.inv(),
                self.buf@ == old(self).buf@,
                self.w == old(self).w,
                buf@.len() == old(buf)@.len(),
                beenread <= old(self)@.readable(buf@.len()),
                self.r == old(self).r + beenread,
                buf@ == old(self)@.peek(beenread as nat) + old(buf)@.skip(beenread as int),
            decreases buf@.len() - beenread,
        {
            buf[beenread] = self.buf[self.r as usize];
            beenread += 1;
            self.r += 1;
            assert(buf@ =~= old(self)@.peek(beenread as nat) + old(buf)@.skip(beenread as int));
        }
        Ok(beenread)
    }

    fn write(&mut self, data: &[u8]) -> (res: Result<usize, std::io::Error>) {
        let mut written: usize = 0;
        if data.len() == 0 {
            assert(data@.take(0) =~= data@);
            return Ok(written);
        }
        // A write that starts past the end first fills the gap with zeros.
        while (self.buf.len() as i64) < self.w
            invariant
                self.inv(),
                self.r == old(self).r,
                self.w == old(self).w,
                self.w + data@.len() <= i64::MAX,
                old(self).buf@.len() <= self.buf@.len(),
                self.buf@.len() <= self.w || self.buf@ == old(self).buf@,
                self.buf@ =~= overlay(old(self).buf@, self.buf@.len() as nat, Seq::<u8>::empty()),
            decreases self.w - self.buf@.len(),
        {
            self.buf.push(0);
        }
        while written < data.len()
            invariant
                old(self).inv(),
                self.inv(),
                self.r == old(self).r,
                self.w == old(self).w + written,
                old(self).w + data@.len() <= i64::MAX,
                written <= data@.len(),
                self.w <= self.buf@.len(),
                self.buf@ =~= overlay(
                    old(self).buf@,
                    old(self).w as nat,
                    data@.take(written as int),
                ),
            decreases data@.len() - written,
        {
            // At the end of the content a byte extends it, before the end it
            // replaces the byte that is there.
            let byte = data[written];
            if self.buf.len() as i64 == self.w {
                self.buf.push(byte);
            } else {
                self.buf[self.w as usize] = byte;
            }
            self.w += 1;
            written += 1;
        }
        assert(data@.take(written as int) =~= data@);
        Ok(written)
    }
}

} // verus!
