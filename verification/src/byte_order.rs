//! Big-endian encoding of 32-bit integers.
//!
//! The wire format stores each chunk's payload length and checksum as four
//! big-endian bytes.  These functions relate the executable conversions to
//! their sequence-level specifications.

use vstd::prelude::*;

verus! {

/// The four big-endian bytes of `x`, most significant first.
pub open spec fn spec_u32_to_be_bytes(x: u32) -> Seq<u8> {
    seq![
        (x >> 24) as u8,
        ((x >> 16) & 0xff) as u8,
        ((x >> 8) & 0xff) as u8,
        (x & 0xff) as u8,
    ]
}

/// The 32-bit integer read from four big-endian bytes.
pub open spec fn spec_u32_from_be_bytes(s: Seq<u8>) -> u32
    recommends
        s.len() == 4,
{
    ((s[0] as u32) << 24) | ((s[1] as u32) << 16) | ((s[2] as u32) << 8) | (s[3] as u32)
}

/// Reading back the four big-endian bytes of `x` yields `x` again.
pub proof fn lemma_u32_from_to_be_bytes(x: u32)
    ensures
        spec_u32_from_be_bytes(spec_u32_to_be_bytes(x)) == x,
{
    assert((((x >> 24) as u8 as u32) << 24) | (((x >> 16) & 0xff) as u8 as u32) << 16 | (((x
        >> 8) & 0xff) as u8 as u32) << 8 | ((x & 0xff) as u8 as u32) == x) by (bit_vector);
}

/// Serializing the integer read from four bytes yields those bytes again.
pub proof fn lemma_u32_to_from_be_bytes(s: Seq<u8>)
    requires
        s.len() == 4,
    ensures
        spec_u32_to_be_bytes(spec_u32_from_be_bytes(s)) == s,
{
    let b0 = s[0];
    let b1 = s[1];
    let b2 = s[2];
    let b3 = s[3];
    let x = spec_u32_from_be_bytes(s);
    assert((((b0 as u32) << 24 | (b1 as u32) << 16 | (b2 as u32) << 8 | (b3 as u32)) >> 24) as u8
        == b0) by (bit_vector);
    assert(((((b0 as u32) << 24 | (b1 as u32) << 16 | (b2 as u32) << 8 | (b3 as u32)) >> 16)
        & 0xff) as u8 == b1) by (bit_vector);
    assert(((((b0 as u32) << 24 | (b1 as u32) << 16 | (b2 as u32) << 8 | (b3 as u32)) >> 8)
        & 0xff) as u8 == b2) by (bit_vector);
    assert((((b0 as u32) << 24 | (b1 as u32) << 16 | (b2 as u32) << 8 | (b3 as u32)) & 0xff) as u8
        == b3) by (bit_vector);
    assert(spec_u32_to_be_bytes(x) =~= s);
}

/// The four big-endian bytes of `x`, as an executable array.
pub fn u32_to_be_bytes(x: u32) -> (r: [u8; 4])
    ensures
        r@ == spec_u32_to_be_bytes(x),
{
    proof {
        assert(x >> 24 < 256 && (x >> 16) & 0xff < 256 && (x >> 8) & 0xff < 256 && x & 0xff
            < 256) by (bit_vector);
    }
    let b0 = (x >> 24) as u8;
    let b1 = ((x >> 16) & 0xff) as u8;
    let b2 = ((x >> 8) & 0xff) as u8;
    let b3 = (x & 0xff) as u8;
    let r = [b0, b1, b2, b3];
    proof {
        assert(r@ =~= spec_u32_to_be_bytes(x));
    }
    r
}

/// The 32-bit integer read from `s[offset .. offset + 4]`, big-endian.
pub fn u32_from_be_bytes_at(s: &[u8], offset: usize) -> (r: u32)
    requires
        offset + 4 <= s@.len(),
    ensures
        r == spec_u32_from_be_bytes(s@.subrange(offset as int, offset as int + 4)),
{
    let n: usize = s.len();
    proof {
        assert(offset + 4 <= n);
    }
    let b0 = *vstd::slice::slice_index_get(s, offset);
    let b1 = *vstd::slice::slice_index_get(s, offset + 1);
    let b2 = *vstd::slice::slice_index_get(s, offset + 2);
    let b3 = *vstd::slice::slice_index_get(s, offset + 3);
    let r = ((b0 as u32) << 24) | ((b1 as u32) << 16) | ((b2 as u32) << 8) | (b3 as u32);
    proof {
        let sub = s@.subrange(offset as int, offset as int + 4);
        assert(sub[0] == b0 && sub[1] == b1 && sub[2] == b2 && sub[3] == b3);
    }
    r
}

} // verus!
