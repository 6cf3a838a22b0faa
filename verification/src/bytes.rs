//! Fixed-width integers and four-character tags inside byte buffers.

use vstd::prelude::*;

verus! {

/// The little-endian 32-bit integer stored at `at`.
#[verifier::opaque]
pub open spec fn le_u32(b: Seq<u8>, at: int) -> int {
    b[at] + 0x100 * b[at + 1] + 0x1_0000 * b[at + 2] + 0x100_0000 * b[at + 3]
}

/// The little-endian 64-bit integer stored at `at`.
#[verifier::opaque]
pub open spec fn le_u64(b: Seq<u8>, at: int) -> int {
    le_u32(b, at) + 0x1_0000_0000 * le_u32(b, at + 4)
}

/// The big-endian 16-bit integer stored at `at`.
#[verifier::opaque]
pub open spec fn be_u16(b: Seq<u8>, at: int) -> int {
    0x100 * b[at] + b[at + 1]
}

/// The big-endian 32-bit integer stored at `at`.
#[verifier::opaque]
pub open spec fn be_u32(b: Seq<u8>, at: int) -> int {
    0x100_0000 * b[at] + 0x1_0000 * b[at + 1] + 0x100 * b[at + 2] + b[at + 3]
}

/// The big-endian 64-bit integer stored at `at`.
#[verifier::opaque]
pub open spec fn be_u64(b: Seq<u8>, at: int) -> int {
    0x1_0000_0000 * be_u32(b, at) + be_u32(b, at + 4)
}

/// Whether the four bytes at `at` are the given tag.
pub open spec fn has_tag(b: Seq<u8>, at: int, tag: (u8, u8, u8, u8)) -> bool {
    &&& b[at] == tag.0
    &&& b[at + 1] == tag.1
    &&& b[at + 2] == tag.2
    &&& b[at + 3] == tag.3
}

/// Reads the little-endian `u32` at `at`.
pub fn le_u32_at(b: &[u8], at: usize) -> (r: u32)
    requires
        at + 4 <= b@.len(),
    ensures
        r == le_u32(b@, at as int),
{
    reveal(le_u32);
    let b0: u32 = b[at] as u32;
    let b1: u32 = b[at + 1] as u32;
    let b2: u32 = b[at + 2] as u32;
    let b3: u32 = b[at + 3] as u32;
    b0 + 0x100 * b1 + 0x1_0000 * b2 + 0x100_0000 * b3
}

/// Reads the little-endian `u64` at `at`.
pub fn le_u64_at(b: &[u8], at: usize) -> (r: u64)
    requires
        at + 8 <= b@.len(),
    ensures
        r == le_u64(b@, at as int),
{
    reveal(le_u64);
    assert(at + 8 <= b.len());
    let low: u64 = le_u32_at(b, at) as u64;
    let high: u64 = le_u32_at(b, at + 4) as u64;
    low + 0x1_0000_0000 * high
}

/// Reads the big-endian `u16` at `at`.
pub fn be_u16_at(b: &[u8], at: usize) -> (r: u16)
    requires
        at + 2 <= b@.len(),
    ensures
        r == be_u16(b@, at as int),
{
    reveal(be_u16);
    let b0: u16 = b[at] as u16;
    let b1: u16 = b[at + 1] as u16;
    0x100 * b0 + b1
}

/// Reads the big-endian `u32` at `at`.
pub fn be_u32_at(b: &[u8], at: usize) -> (r: u32)
    requires
        at + 4 <= b@.len(),
    ensures
        r == be_u32(b@, at as int),
{
    reveal(be_u32);
    let b0: u32 = b[at] as u32;
    let b1: u32 = b[at + 1] as u32;
    let b2: u32 = b[at + 2] as u32;
    let b3: u32 = b[at + 3] as u32;
    0x100_0000 * b0 + 0x1_0000 * b1 + 0x100 * b2 + b3
}

/// Reads the big-endian `u64` at `at`.
pub fn be_u64_at(b: &[u8], at: usize) -> (r: u64)
    requires
        at + 8 <= b@.len(),
    ensures
        r == be_u64(b@, at as int),
{
    reveal(be_u64);
    assert(at + 8 <= b.len());
    let high: u64 = be_u32_at(b, at) as u64;
    let low: u64 = be_u32_at(b, at + 4) as u64;
    0x1_0000_0000 * high + low
}

/// Tests the four bytes at `at` against a tag.
pub fn tag_at(b: &[u8], at: usize, tag: (u8, u8, u8, u8)) -> (r: bool)
    requires
        at + 4 <= b@.len(),
    ensures
        r == has_tag(b@, at as int, tag),
{
    b[at] == tag.0 && b[at + 1] == tag.1 && b[at + 2] == tag.2 && b[at + 3] == tag.3
}

} // verus!
