//! The append-only output buffer a dump is assembled in. Every write
//! lands at the current end and reports where it landed; positions are
//! 32-bit offsets into the dump, as the record format requires.

use vstd::prelude::*;
use vstd::bytes::{
    lemma_auto_spec_u32_to_from_le_bytes, lemma_auto_spec_u64_to_from_le_bytes,
    spec_u32_to_le_bytes, spec_u64_to_le_bytes, u32_to_le_bytes, u64_to_le_bytes,
};

verus! {

/// A single-writer append-only byte sink; nothing written is ever
/// moved or overwritten, so an (offset, size) pair handed out for one
/// write stays valid for the rest of the dump's assembly.
pub struct DumpBuf {
    data: Vec<u8>,
}

impl View for DumpBuf {
    type V = Seq<u8>;

    closed spec fn view(&self) -> Seq<u8> {
        self.data@
    }
}

impl DumpBuf {
    /// Creates an empty buffer.
    pub fn new() -> (r: Self)
        ensures
            r@ == Seq::<u8>::empty(),
    {
        DumpBuf { data: Vec::new() }
    }

    /// The position the next write will land at.
    pub fn position(&self) -> (r: u32)
        requires
            self@.len() <= u32::MAX,
        ensures
            r == self@.len(),
    {
        self.data.len() as u32
    }

    /// The bytes written so far.
    pub fn bytes(&self) -> (r: &Vec<u8>)
        ensures
            r@ == self@,
    {
        &self.data
    }

    /// Appends raw bytes, returning the position they landed at.
    pub fn write_bytes(&mut self, b: &Vec<u8>) -> (pos: u32)
        requires
            old(self)@.len() + b@.len() <= u32::MAX,
        ensures
            final(self)@ == old(self)@ + b@,
            pos == old(self)@.len(),
    {
        let pos = self.data.len() as u32;
        let n = b.len();
        let mut i: usize = 0;
        while i < n
            invariant
                i <= n,
                n == b@.len(),
                self.data@ == old(self)@ + b@.subrange(0, i as int),
            decreases n - i,
        {
            self.data.push(b[i]);
            proof {
                assert(self.data@ =~= old(self)@ + b@.subrange(0, i + 1));
            }
            i = i + 1;
        }
        proof {
            assert(self.data@ =~= old(self)@ + b@);
        }
        pos
    }

    /// Appends one byte.
    pub fn write_u8(&mut self, x: u8) -> (pos: u32)
        requires
            old(self)@.len() + 1 <= u32::MAX,
        ensures
            final(self)@ == old(self)@.push(x),
            pos == old(self)@.len(),
    {
        let pos = self.data.len() as u32;
        self.data.push(x);
        pos
    }

    /// Appends `x` as four little-endian bytes.
    pub fn write_u32(&mut self, x: u32) -> (pos: u32)
        requires
            old(self)@.len() + 4 <= u32::MAX,
        ensures
            final(self)@ == old(self)@ + spec_u32_to_le_bytes(x),
            pos == old(self)@.len(),
    {
        proof {
            lemma_auto_spec_u32_to_from_le_bytes();
        }
        let b = u32_to_le_bytes(x);
        self.write_bytes(&b)
    }

    /// Appends `x` as eight little-endian bytes.
    pub fn write_u64(&mut self, x: u64) -> (pos: u32)
        requires
            old(self)@.len() + 8 <= u32::MAX,
        ensures
            final(self)@ == old(self)@ + spec_u64_to_le_bytes(x),
            pos == old(self)@.len(),
    {
        proof {
            lemma_auto_spec_u64_to_from_le_bytes();
        }
        let b = u64_to_le_bytes(x);
        self.write_bytes(&b)
    }
}

} // verus!
