//! Fixed-width integers in byte sequences.

use vstd::prelude::*;

pub mod laws;

verus! {

/// The big-endian 32-bit integer at `pos`.
pub open spec fn be32(s: Seq<u8>, pos: int) -> int {
    s[pos] * 0x100_0000 + s[pos + 1] * 0x1_0000 + s[pos + 2] * 0x100 + s[pos + 3]
}

/// The big-endian 64-bit integer at `pos`.
pub open spec fn be64(s: Seq<u8>, pos: int) -> int {
    be32(s, pos) * 0x1_0000_0000 + be32(s, pos + 4)
}

/// The little-endian 32-bit integer at `pos`.
pub open spec fn le32(s: Seq<u8>, pos: int) -> int {
    s[pos] + s[pos + 1] * 0x100 + s[pos + 2] * 0x1_0000 + s[pos + 3] * 0x100_0000
}

/// The little-endian 64-bit integer at `pos`.
pub open spec fn le64(s: Seq<u8>, pos: int) -> int {
    le32(s, pos) + le32(s, pos + 4) * 0x1_0000_0000
}

/// The four big-endian bytes of `v`.
pub open spec fn be32_bytes(v: u32) -> Seq<u8> {
    seq![
        (v / 0x100_0000) as u8,
        (v / 0x1_0000 % 0x100) as u8,
        (v / 0x100 % 0x100) as u8,
        (v % 0x100) as u8,
    ]
}

/// The eight big-endian bytes of `v`.
pub open spec fn be64_bytes(v: u64) -> Seq<u8> {
    be32_bytes((v / 0x1_0000_0000) as u32) + be32_bytes((v % 0x1_0000_0000) as u32)
}

/// The two little-endian bytes of `v`.
pub open spec fn le16_bytes(v: u16) -> Seq<u8> {
    seq![(v % 0x100) as u8, (v / 0x100) as u8]
}

/// The four little-endian bytes of `v`.
pub open spec fn le32_bytes(v: u32) -> Seq<u8> {
    seq![
        (v % 0x100) as u8,
        (v / 0x100 % 0x100) as u8,
        (v / 0x1_0000 % 0x100) as u8,
        (v / 0x100_0000) as u8,
    ]
}

/// The eight little-endian bytes of `v`.
pub open spec fn le64_bytes(v: u64) -> Seq<u8> {
    le32_bytes((v % 0x1_0000_0000) as u32) + le32_bytes((v / 0x1_0000_0000) as u32)
}

/// Reads the big-endian 32-bit integer at `pos`.
pub fn be_u32(buf: &[u8], pos: usize) -> (r: u32)
    requires
        pos + 4 <= buf@.len(),
    ensures
        r == be32(buf@, pos as int),
{
    buf[pos] as u32 * 0x100_0000 + buf[pos + 1] as u32 * 0x1_0000 + buf[pos + 2] as u32 * 0x100
        + buf[pos + 3] as u32
}

/// Reads the big-endian 64-bit integer at `pos`.
pub fn be_u64(buf: &[u8], pos: usize) -> (r: u64)
    requires
        pos + 8 <= buf@.len(),
    ensures
        r == be64(buf@, pos as int),
{
    assert(pos + 8 <= buf.len());
    be_u32(buf, pos) as u64 * 0x1_0000_0000 + be_u32(buf, pos + 4) as u64
}

/// Reads the little-endian 32-bit integer at `pos`.
pub fn le_u32(buf: &[u8], pos: usize) -> (r: u32)
    requires
        pos + 4 <= buf@.len(),
    ensures
        r == le32(buf@, pos as int),
{
    buf[pos] as u32 + buf[pos + 1] as u32 * 0x100 + buf[pos + 2] as u32 * 0x1_0000 + buf[pos
        + 3] as u32 * 0x100_0000
}

/// Reads the little-endian 64-bit integer at `pos`.
pub fn le_u64(buf: &[u8], pos: usize) -> (r: u64)
    requires
        pos + 8 <= buf@.len(),
    ensures
        r == le64(buf@, pos as int),
{
    assert(pos + 8 <= buf.len());
    le_u32(buf, pos) as u64 + le_u32(buf, pos + 4) as u64 * 0x1_0000_0000
}

/// Appends `more` to `out`.
pub fn push_all(out: &mut Vec<u8>, more: &[u8])
    ensures
        final(out)@ == old(out)@ + more@,
{
    let ghost before = out@;
    let n: usize = more.len();
    let mut i: usize = 0;
    while i < n
        invariant
            i <= n,
            n == more@.len(),
            out@ == before + more@.take(i as int),
        decreases n - i,
    {
        out.push(more[i]);
        i = i + 1;
    }
}

/// Appends the four big-endian bytes of `v` to `out`.
pub fn push_be_u32(out: &mut Vec<u8>, v: u32)
    ensures
        final(out)@ == old(out)@ + be32_bytes(v),
{
    out.push((v / 0x100_0000) as u8);
    out.push((v / 0x1_0000 % 0x100) as u8);
    out.push((v / 0x100 % 0x100) as u8);
    out.push((v % 0x100) as u8);
}

/// Appends the eight big-endian bytes of `v` to `out`.
pub fn push_be_u64(out: &mut Vec<u8>, v: u64)
    ensures
        final(out)@ == old(out)@ + be64_bytes(v),
{
    push_be_u32(out, (v / 0x1_0000_0000) as u32);
    push_be_u32(out, (v % 0x1_0000_0000) as u32);
}

/// Appends the two little-endian bytes of `v` to `out`.
pub fn push_le_u16(out: &mut Vec<u8>, v: u16)
    ensures
        final(out)@ == old(out)@ + le16_bytes(v),
{
    out.push((v % 0x100) as u8);
    out.push((v / 0x100) as u8);
}

/// Appends the four little-endian bytes of `v` to `out`.
pub fn push_le_u32(out: &mut Vec<u8>, v: u32)
    ensures
        final(out)@ == old(out)@ + le32_bytes(v),
{
    out.push((v % 0x100) as u8);
    out.push((v / 0x100 % 0x100) as u8);
    out.push((v / 0x1_0000 % 0x100) as u8);
    out.push((v / 0x100_0000) as u8);
}

/// Appends the eight little-endian bytes of `v` to `out`.
pub fn push_le_u64(out: &mut Vec<u8>, v: u64)
    ensures
        final(out)@ == old(out)@ + le64_bytes(v),
{
    push_le_u32(out, (v % 0x1_0000_0000) as u32);
    push_le_u32(out, (v / 0x1_0000_0000) as u32);
}

/// Reading back what was written gives the integer again, big-endian.
pub proof fn be_round_trip(v: u32, w: u64)
    ensures
        be32(be32_bytes(v), 0) == v,
        be64(be64_bytes(w), 0) == w,
{
    let hi = (w / 0x1_0000_0000) as u32;
    let lo = (w % 0x1_0000_0000) as u32;
    assert(be32(be32_bytes(v), 0) == v);
    assert(be32(be32_bytes(hi), 0) == hi);
    assert(be32(be32_bytes(lo), 0) == lo);
    assert(be32(be64_bytes(w), 0) == be32(be32_bytes(hi), 0));
    assert(be32(be64_bytes(w), 4) == be32(be32_bytes(lo), 0));
}

/// Reading back what was written gives the integer again, little-endian.
pub proof fn le_round_trip(v: u32, w: u64)
    ensures
        le32(le32_bytes(v), 0) == v,
        le64(le64_bytes(w), 0) == w,
{
    let hi = (w / 0x1_0000_0000) as u32;
    let lo = (w % 0x1_0000_0000) as u32;
    assert(le32(le32_bytes(v), 0) == v);
    assert(le32(le32_bytes(hi), 0) == hi);
    assert(le32(le32_bytes(lo), 0) == lo);
    assert(le32(le64_bytes(w), 0) == le32(le32_bytes(lo), 0));
    assert(le32(le64_bytes(w), 4) == le32(le32_bytes(hi), 0));
}

/// Writing the integer that was read gives the four bytes again, big-endian.
pub proof fn be_write_back(s: Seq<u8>)
    requires
        s.len() == 4,
    ensures
        be32_bytes(be32(s, 0) as u32) == s,
{
    let (a, b, c, d) = (s[0] as int, s[1] as int, s[2] as int, s[3] as int);
    let v = be32(s, 0);
    assert(v == ((a * 0x100 + b) * 0x100 + c) * 0x100 + d);
    assert(v / 0x100_0000 == a);
    assert(v / 0x1_0000 == a * 0x100 + b);
    assert(v / 0x100 == (a * 0x100 + b) * 0x100 + c);
    assert(v % 0x100 == d);
    assert(be32_bytes(v as u32) =~= s);
}

} // verus!
