//! Helpers on plain byte vectors: comparison, copying, and the
//! little-endian encodings used as derivation seeds.

use vstd::prelude::*;

verus! {

/// Whether two byte vectors hold the same bytes.
pub fn bytes_eq(a: &Vec<u8>, b: &Vec<u8>) -> (r: bool)
    ensures
        r == (a@ == b@),
{
    let r = a == b;
    proof {
        if r {
            assert(a@ =~= b@);
        }
    }
    r
}

/// A fresh vector holding the same bytes.
pub fn clone_bytes(v: &Vec<u8>) -> (r: Vec<u8>)
    ensures
        r@ == v@,
{
    let r = v.clone();
    proof {
        assert(r@ =~= v@);
    }
    r
}

/// The eight little-endian bytes of a 64-bit value.
pub open spec fn u64_le_bytes(x: u64) -> Seq<u8> {
    Seq::new(8, |i: int| ((x >> ((8 * i) as u64)) & 0xff) as u8)
}

/// The unsigned 64-bit value with the same bit pattern as `x`.
pub open spec fn i64_as_u64(x: i64) -> u64 {
    if x >= 0 {
        x as u64
    } else {
        (x + 0x1_0000_0000_0000_0000) as u64
    }
}

/// The eight little-endian bytes of a signed 64-bit value.
pub open spec fn i64_le_bytes(x: i64) -> Seq<u8> {
    u64_le_bytes(i64_as_u64(x))
}

/// Encode a 64-bit value as its eight little-endian bytes.
pub fn u64_to_le(x: u64) -> (r: Vec<u8>)
    ensures
        r@ == u64_le_bytes(x),
{
    let mut r: Vec<u8> = Vec::new();
    let mut i: usize = 0;
    while i < 8
        invariant
            i <= 8,
            r@.len() == i,
            forall|j: int| 0 <= j < i ==> r@[j] == u64_le_bytes(x)[j],
        decreases 8 - i,
    {
        let sh: u64 = (8 * i) as u64;
        let b: u8 = ((x >> sh) & 0xff) as u8;
        proof {
            assert(b == u64_le_bytes(x)[i as int]);
        }
        r.push(b);
        i += 1;
    }
    proof {
        assert(r@ =~= u64_le_bytes(x));
    }
    r
}

/// Encode a signed 64-bit value as its eight little-endian bytes.
pub fn i64_to_le(x: i64) -> (r: Vec<u8>)
    ensures
        r@ == i64_le_bytes(x),
{
    let u: u64 = if x >= 0 {
        x as u64
    } else {
        ((x as i128) + 0x1_0000_0000_0000_0000i128) as u64
    };
    proof {
        assert(u == i64_as_u64(x));
    }
    u64_to_le(u)
}

} // verus!
