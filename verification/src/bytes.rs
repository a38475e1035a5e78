//! Fixed-width integer reads from byte slices (big and little endian).

use vstd::prelude::*;

verus! {

/// Big-endian 16-bit value starting at `off`.
pub open spec fn spec_be16(b: Seq<u8>, off: int) -> int {
    b[off] * 256 + b[off + 1]
}

/// Big-endian 32-bit value starting at `off`.
pub open spec fn spec_be32(b: Seq<u8>, off: int) -> int {
    b[off] * 16777216 + b[off + 1] * 65536 + b[off + 2] * 256 + b[off + 3]
}

/// Little-endian 16-bit value starting at `off`.
pub open spec fn spec_le16(b: Seq<u8>, off: int) -> int {
    b[off + 1] * 256 + b[off]
}

/// Little-endian 24-bit value starting at `off`.
pub open spec fn spec_le24(b: Seq<u8>, off: int) -> int {
    b[off + 2] * 65536 + b[off + 1] * 256 + b[off]
}

/// Little-endian 32-bit value starting at `off`.
pub open spec fn spec_le32(b: Seq<u8>, off: int) -> int {
    b[off + 3] * 16777216 + b[off + 2] * 65536 + b[off + 1] * 256 + b[off]
}

/// Reads a big-endian u16 (widened to u32) at `off`.
pub fn be16(b: &[u8], off: usize) -> (r: u32)
    requires
        off + 2 <= b.len(),
    ensures
        r == spec_be16(b@, off as int),
{
    (b[off] as u32) * 256 + b[off + 1] as u32
}

/// Reads a big-endian u32 at `off`.
pub fn be32(b: &[u8], off: usize) -> (r: u32)
    requires
        off + 4 <= b.len(),
    ensures
        r == spec_be32(b@, off as int),
{
    (b[off] as u32) * 16777216 + (b[off + 1] as u32) * 65536 + (b[off + 2] as u32) * 256
        + b[off + 3] as u32
}

/// Reads a little-endian u16 (widened to u32) at `off`.
pub fn le16(b: &[u8], off: usize) -> (r: u32)
    requires
        off + 2 <= b.len(),
    ensures
        r == spec_le16(b@, off as int),
{
    (b[off + 1] as u32) * 256 + b[off] as u32
}

/// Reads a little-endian 24-bit value at `off`.
pub fn le24(b: &[u8], off: usize) -> (r: u32)
    requires
        off + 3 <= b.len(),
    ensures
        r == spec_le24(b@, off as int),
{
    (b[off + 2] as u32) * 65536 + (b[off + 1] as u32) * 256 + b[off] as u32
}

/// Reads a little-endian u32 at `off`.
pub fn le32(b: &[u8], off: usize) -> (r: u32)
    requires
        off + 4 <= b.len(),
    ensures
        r == spec_le32(b@, off as int),
{
    (b[off + 3] as u32) * 16777216 + (b[off + 2] as u32) * 65536 + (b[off + 1] as u32) * 256
        + b[off] as u32
}

/// True when the four bytes at `off` equal `tag`.
pub open spec fn spec_tag_at(b: Seq<u8>, off: int, tag: Seq<u8>) -> bool {
    &&& 0 <= off
    &&& off + tag.len() <= b.len()
    &&& b.subrange(off, off + tag.len()) == tag
}

/// Compares `b[off..off + tag.len()]` with `tag`; false when out of range.
pub fn tag_at(b: &[u8], off: usize, tag: &[u8]) -> (r: bool)
    ensures
        r == spec_tag_at(b@, off as int, tag@),
{
    if off > b.len() || tag.len() > b.len() - off {
        return false;
    }
    let mut i: usize = 0;
    while i < tag.len()
        invariant
            i <= tag@.len(),
            off + tag@.len() <= b.len(),
            forall|j: int| 0 <= j < i ==> b@[off + j] == tag@[j],
        decreases tag@.len() - i,
    {
        if b[off + i] != tag[i] {
            assert(b@.subrange(off as int, off + tag@.len())[i as int] != tag@[i as int]);
            return false;
        }
        i = i + 1;
    }
    assert(b@.subrange(off as int, off + tag@.len()) =~= tag@);
    true
}

} // verus!
