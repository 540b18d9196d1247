//! Little-endian field access within byte buffers, shared by the Mach-O
//! decoders and the module-record serializer.

use vstd::prelude::*;
use vstd::bytes::*;
use vstd::slice::*;

verus! {

/// The `u32` stored little-endian at byte offset `off` of `b`.
pub open spec fn u32_at(b: Seq<u8>, off: int) -> u32 {
    spec_u32_from_le_bytes(b.subrange(off, off + 4))
}

/// The `u64` stored little-endian at byte offset `off` of `b`.
pub open spec fn u64_at(b: Seq<u8>, off: int) -> u64 {
    spec_u64_from_le_bytes(b.subrange(off, off + 8))
}

/// Reads the little-endian `u32` at byte offset `off`.
pub fn read_u32_at(b: &[u8], off: usize) -> (r: u32)
    requires
        off + 4 <= b@.len(),
    ensures
        r == u32_at(b@, off as int),
{
    let n = b.len();
    assert(off + 4 <= n);
    let w = slice_subrange(b, off, off + 4);
    u32_from_le_bytes(w)
}

/// Reads the little-endian `u64` at byte offset `off`.
pub fn read_u64_at(b: &[u8], off: usize) -> (r: u64)
    requires
        off + 8 <= b@.len(),
    ensures
        r == u64_at(b@, off as int),
{
    let n = b.len();
    assert(off + 8 <= n);
    let w = slice_subrange(b, off, off + 8);
    u64_from_le_bytes(w)
}

/// Copies `b[off .. off + len]` into an owned vector.
pub fn read_bytes_at(b: &[u8], off: usize, len: usize) -> (r: Vec<u8>)
    requires
        off + len <= b@.len(),
    ensures
        r@ == b@.subrange(off as int, off as int + len as int),
{
    let n = b.len();
    assert(off + len <= n);
    let w = slice_subrange(b, off, off + len);
    slice_to_vec(w)
}

} // verus!
