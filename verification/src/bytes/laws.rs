//! How bytes count in integers.

use super::{be32, be64, le32, le64};
use vstd::prelude::*;

verus! {

/// In big-endian integers the first byte counts most, in little-endian ones the last:
/// each byte counts 256 times the one that counts next.
pub proof fn bytes_count_by_place(s: Seq<u8>)
    requires
        s.len() == 8,
    ensures
        be32(s, 0) == 256 * (256 * (256 * s[0] + s[1]) + s[2]) + s[3],
        be32(s, 0) == le32(s.take(4).reverse(), 0),
        be64(s, 0) == le64(s.reverse(), 0),
        be64(s, 0) == 0x1_0000_0000 * be32(s, 0) + be32(s, 4),
        le64(s, 0) == le32(s, 0) + 0x1_0000_0000 * le32(s, 4),
{
    let r = s.take(4).reverse();
    assert(r[0] == s[3] && r[1] == s[2] && r[2] == s[1] && r[3] == s[0]);
    let t = s.reverse();
    assert(t[0] == s[7] && t[1] == s[6] && t[2] == s[5] && t[3] == s[4]);
    assert(t[4] == s[3] && t[5] == s[2] && t[6] == s[1] && t[7] == s[0]);
}

} // verus!
