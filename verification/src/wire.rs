//! Reading and writing of fixed-size scalars on the wire.
//!
//! Reads honour the endianness recorded in the parse context; writes always
//! produce little-endian bytes, and the produced buffer is tagged
//! accordingly by the caller.

use vstd::bytes::*;
use vstd::prelude::*;

verus! {

/// The first two bytes of `d`, read as a 16 bit unsigned integer.
pub open spec fn read_u16_spec(d: Seq<u8>, be: bool) -> u16 {
    if be {
        spec_u16_from_le_bytes(d.subrange(0, 2).reverse())
    } else {
        spec_u16_from_le_bytes(d.subrange(0, 2))
    }
}

/// The first four bytes of `d`, read as a 32 bit unsigned integer.
pub open spec fn read_u32_spec(d: Seq<u8>, be: bool) -> u32 {
    if be {
        spec_u32_from_le_bytes(d.subrange(0, 4).reverse())
    } else {
        spec_u32_from_le_bytes(d.subrange(0, 4))
    }
}

/// The first eight bytes of `d`, read as a 64 bit unsigned integer.
pub open spec fn read_u64_spec(d: Seq<u8>, be: bool) -> u64 {
    if be {
        spec_u64_from_le_bytes(d.subrange(0, 8).reverse())
    } else {
        spec_u64_from_le_bytes(d.subrange(0, 8))
    }
}

/// Reads a 16 bit unsigned integer from the start of `d`.
pub fn read_u16(d: &[u8], be: bool) -> (r: u16)
    requires
        d@.len() >= 2,
    ensures
        r == read_u16_spec(d@, be),
{
    if be {
        let mut b: Vec<u8> = Vec::new();
        b.push(d[1]);
        b.push(d[0]);
        proof {
            assert(b@ =~= d@.subrange(0, 2).reverse());
        }
        u16_from_le_bytes(b.as_slice())
    } else {
        u16_from_le_bytes(vstd::slice::slice_subrange(d, 0, 2))
    }
}

/// Reads a 32 bit unsigned integer from the start of `d`.
pub fn read_u32(d: &[u8], be: bool) -> (r: u32)
    requires
        d@.len() >= 4,
    ensures
        r == read_u32_spec(d@, be),
{
    if be {
        let mut b: Vec<u8> = Vec::new();
        b.push(d[3]);
        b.push(d[2]);
        b.push(d[1]);
        b.push(d[0]);
        proof {
            assert(b@ =~= d@.subrange(0, 4).reverse());
        }
        u32_from_le_bytes(b.as_slice())
    } else {
        u32_from_le_bytes(vstd::slice::slice_subrange(d, 0, 4))
    }
}

/// Reads a 64 bit unsigned integer from the start of `d`.
pub fn read_u64(d: &[u8], be: bool) -> (r: u64)
    requires
        d@.len() >= 8,
    ensures
        r == read_u64_spec(d@, be),
{
    if be {
        let mut b: Vec<u8> = Vec::new();
        b.push(d[7]);
        b.push(d[6]);
        b.push(d[5]);
        b.push(d[4]);
        b.push(d[3]);
        b.push(d[2]);
        b.push(d[1]);
        b.push(d[0]);
        proof {
            assert(b@ =~= d@.subrange(0, 8).reverse());
        }
        u64_from_le_bytes(b.as_slice())
    } else {
        u64_from_le_bytes(vstd::slice::slice_subrange(d, 0, 8))
    }
}

/// Byte-swapping the input swaps which endianness reads a given value: a
/// big-endian read of the reversed bytes equals the little-endian read of
/// the original bytes, for each scalar width.
pub proof fn lemma_endian_swap(d: Seq<u8>)
    ensures
        d.len() >= 2 ==> read_u16_spec(d.subrange(0, 2).reverse(), true) == read_u16_spec(d, false),
        d.len() >= 4 ==> read_u32_spec(d.subrange(0, 4).reverse(), true) == read_u32_spec(d, false),
        d.len() >= 8 ==> read_u64_spec(d.subrange(0, 8).reverse(), true) == read_u64_spec(d, false),
{
    if d.len() >= 2 {
        let s = d.subrange(0, 2);
        assert(s.reverse().subrange(0, 2).reverse() =~= s);
    }
    if d.len() >= 4 {
        let s = d.subrange(0, 4);
        assert(s.reverse().subrange(0, 4).reverse() =~= s);
    }
    if d.len() >= 8 {
        let s = d.subrange(0, 8);
        assert(s.reverse().subrange(0, 8).reverse() =~= s);
    }
}

/// Appends the little-endian bytes of a 16 bit integer.
pub fn push_u16_le(v: &mut Vec<u8>, x: u16)
    ensures
        final(v)@ == old(v)@ + spec_u16_to_le_bytes(x),
{
    let b = u16_to_le_bytes(x);
    push_bytes(v, b.as_slice());
}

/// Appends the little-endian bytes of a 32 bit integer.
pub fn push_u32_le(v: &mut Vec<u8>, x: u32)
    ensures
        final(v)@ == old(v)@ + spec_u32_to_le_bytes(x),
{
    let b = u32_to_le_bytes(x);
    push_bytes(v, b.as_slice());
}

/// Appends the little-endian bytes of a 64 bit integer.
pub fn push_u64_le(v: &mut Vec<u8>, x: u64)
    ensures
        final(v)@ == old(v)@ + spec_u64_to_le_bytes(x),
{
    let b = u64_to_le_bytes(x);
    push_bytes(v, b.as_slice());
}

/// Appends a copy of `s`.
pub fn push_bytes(v: &mut Vec<u8>, s: &[u8])
    ensures
        final(v)@ == old(v)@ + s@,
{
    let mut i: usize = 0;
    while i < s.len()
        invariant
            i <= s@.len(),
            v@ =~= old(v)@ + s@.take(i as int),
        decreases s@.len() - i,
    {
        v.push(s[i]);
        i = i + 1;
        proof {
            assert(old(v)@ + s@.take(i as int) =~= (old(v)@ + s@.take(i - 1)).push(
                s@[i - 1],
            ));
        }
    }
    proof {
        assert(old(v)@ + s@.take(s@.len() as int) =~= old(v)@ + s@);
    }
}

} // verus!
