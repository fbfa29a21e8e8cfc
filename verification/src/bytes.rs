//! Little-endian fields and byte ranges of binary structures.

use vstd::prelude::*;

verus! {

/// The two bytes at `at`, read little-endian.
pub open spec fn le16(s: Seq<u8>, at: int) -> int {
    s[at] + 0x100 * s[at + 1]
}

/// The four bytes at `at`, read little-endian.
pub open spec fn le32(s: Seq<u8>, at: int) -> int {
    s[at] + 0x100 * s[at + 1] + 0x1_0000 * s[at + 2] + 0x100_0000 * s[at + 3]
}

/// The eight bytes at `at`, read little-endian.
pub open spec fn le64(s: Seq<u8>, at: int) -> int {
    le32(s, at) + 0x1_0000_0000 * le32(s, at + 4)
}

/// Reads a little-endian `u16`.
pub fn read_u16(buf: &[u8], at: usize) -> (r: u16)
    requires
        at + 2 <= buf@.len(),
    ensures
        r == le16(buf@, at as int),
{
    buf[at] as u16 + 0x100 * (buf[at + 1] as u16)
}

/// Reads a little-endian `u32`.
pub fn read_u32(buf: &[u8], at: usize) -> (r: u32)
    requires
        at + 4 <= buf@.len(),
    ensures
        r == le32(buf@, at as int),
{
    buf[at] as u32 + 0x100 * (buf[at + 1] as u32) + 0x1_0000 * (buf[at + 2] as u32) + 0x100_0000 * (
    buf[at + 3] as u32)
}

/// Reads a little-endian `u64`.
pub fn read_u64(buf: &[u8], at: usize) -> (r: u64)
    requires
        at + 8 <= buf@.len(),
    ensures
        r == le64(buf@, at as int),
{
    assert(buf.len() == buf@.len());
    let low: u32 = read_u32(buf, at);
    let high: u32 = read_u32(buf, at + 4);
    low as u64 + 0x1_0000_0000 * (high as u64)
}

/// Copies the `N` bytes at `at`.
pub fn read_array<const N: usize>(buf: &[u8], at: usize) -> (r: [u8; N])
    requires
        at + N <= buf@.len(),
    ensures
        r@ == buf@.subrange(at as int, at + N),
{
    let mut out: [u8; N] = vstd::array::array_fill_for_copy_types(0u8);
    let mut i: usize = 0;
    while i < N
        invariant
            i <= N,
            at + N <= buf.len() == buf@.len(),
            out@.len() == N,
            forall|k: int| 0 <= k < i ==> out@[k] == buf@[at + k],
        decreases N - i,
    {
        out[i] = buf[at + i];
        i += 1;
    }
    assert(out@ =~= buf@.subrange(at as int, at + N));
    out
}

/// Whether the two byte strings are the same.
pub fn same_bytes(a: &[u8], b: &[u8]) -> (r: bool)
    ensures
        r == (a@ == b@),
{
    if a.len() != b.len() {
        return false;
    }
    let mut i: usize = 0;
    while i < a.len()
        invariant
            i <= a@.len(),
            a@.len() == b@.len(),
            forall|k: int| 0 <= k < i ==> a@[k] == b@[k],
        decreases a@.len() - i,
    {
        if a[i] != b[i] {
            assert(a@[i as int] != b@[i as int]);
            return false;
        }
        i += 1;
    }
    assert(a@ =~= b@);
    true
}

/// Whether `buf` holds `pattern` at `at`.
pub fn holds_at(buf: &[u8], at: usize, pattern: &[u8]) -> (r: bool)
    requires
        at + pattern@.len() <= buf@.len(),
    ensures
        r == (buf@.subrange(at as int, at + pattern@.len()) == pattern@),
{
    assert(buf.len() == buf@.len());
    same_bytes(vstd::slice::slice_subrange(buf, at, at + pattern.len()), pattern)
}

} // verus!
