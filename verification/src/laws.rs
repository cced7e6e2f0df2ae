//! The general laws of the codec, stated and proved over the same
//! specification functions that the readers' and builders' contracts use:
//! round trips for the built-in marshallers, the alignment invariant of
//! iteration, length exactness of measured buffers, the boolean domain,
//! and endianness symmetry of scalar reads.

use crate::error::DemarshalError;
use crate::reader::{multi_real_len, single_real_len, spec_parse, step_len, SpecValue};
use crate::sig::{
    align_of_spec, lemma_align_up, lemma_multi_split, sig_single_len, valid_multi, CH_B, CH_G,
    CH_O, CH_S,
};
use crate::wire::{read_u16_spec, read_u32_spec, read_u64_spec};
use crate::writer::{DbusStr, DoubleBits, Marshal, MultiBuf, ObjPath, SigBytes};
use vstd::bytes::{
    lemma_auto_spec_u16_to_from_le_bytes, lemma_auto_spec_u32_to_from_le_bytes,
    lemma_auto_spec_u64_to_from_le_bytes, spec_u32_to_le_bytes,
};
use vstd::prelude::*;
use vstd::string::StringSliceAdditionalSpecFns;
use vstd::utf8::{encode_utf8_valid_utf8, valid_utf8};

verus! {

/// Round trip for `y`: the payload a `u8` marshals spans one byte and
/// parses back to the same value, at any position and either endianness.
pub proof fn lemma_roundtrip_byte(x: u8, pos: int, be: bool)
    ensures
        single_real_len(x.m_sig(), x.m_payload(pos), pos, be) == Ok::<int, DemarshalError>(1),
        spec_parse(x.m_sig(), x.m_payload(pos), pos, be) == Ok::<SpecValue, DemarshalError>(
            SpecValue::Byte(x),
        ),
{
}

/// Round trip for `q`: the little-endian payload of a `u16` spans two
/// bytes and parses back to the same value under a little-endian reader.
pub proof fn lemma_roundtrip_u16(x: u16, pos: int)
    ensures
        single_real_len(x.m_sig(), x.m_payload(pos), pos, false) == Ok::<int, DemarshalError>(2),
        spec_parse(x.m_sig(), x.m_payload(pos), pos, false) == Ok::<SpecValue, DemarshalError>(
            SpecValue::UInt16(x),
        ),
{
    lemma_auto_spec_u16_to_from_le_bytes();
    let p = x.m_payload(pos);
    assert(p.subrange(0, 2) =~= p);
}

/// Round trip for `n`.
pub proof fn lemma_roundtrip_i16(x: i16, pos: int)
    ensures
        single_real_len(x.m_sig(), x.m_payload(pos), pos, false) == Ok::<int, DemarshalError>(2),
        spec_parse(x.m_sig(), x.m_payload(pos), pos, false) == Ok::<SpecValue, DemarshalError>(
            SpecValue::Int16(x),
        ),
{
    lemma_auto_spec_u16_to_from_le_bytes();
    let p = x.m_payload(pos);
    assert(p.subrange(0, 2) =~= p);
    assert(read_u16_spec(p, false) == x as u16);
    assert((x as u16) as i16 == x) by (bit_vector);
}

/// Round trip for `u`.
pub proof fn lemma_roundtrip_u32(x: u32, pos: int)
    ensures
        single_real_len(x.m_sig(), x.m_payload(pos), pos, false) == Ok::<int, DemarshalError>(4),
        spec_parse(x.m_sig(), x.m_payload(pos), pos, false) == Ok::<SpecValue, DemarshalError>(
            SpecValue::UInt32(x),
        ),
{
    lemma_auto_spec_u32_to_from_le_bytes();
    let p = x.m_payload(pos);
    assert(p.subrange(0, 4) =~= p);
}

/// Round trip for `i`.
pub proof fn lemma_roundtrip_i32(x: i32, pos: int)
    ensures
        single_real_len(x.m_sig(), x.m_payload(pos), pos, false) == Ok::<int, DemarshalError>(4),
        spec_parse(x.m_sig(), x.m_payload(pos), pos, false) == Ok::<SpecValue, DemarshalError>(
            SpecValue::Int32(x),
        ),
{
    lemma_auto_spec_u32_to_from_le_bytes();
    let p = x.m_payload(pos);
    assert(p.subrange(0, 4) =~= p);
    assert(read_u32_spec(p, false) == x as u32);
    assert((x as u32) as i32 == x) by (bit_vector);
}

/// Round trip for `t`.
pub proof fn lemma_roundtrip_u64(x: u64, pos: int)
    ensures
        single_real_len(x.m_sig(), x.m_payload(pos), pos, false) == Ok::<int, DemarshalError>(8),
        spec_parse(x.m_sig(), x.m_payload(pos), pos, false) == Ok::<SpecValue, DemarshalError>(
            SpecValue::UInt64(x),
        ),
{
    lemma_auto_spec_u64_to_from_le_bytes();
    let p = x.m_payload(pos);
    assert(p.subrange(0, 8) =~= p);
}

/// Round trip for `x`.
pub proof fn lemma_roundtrip_i64(x: i64, pos: int)
    ensures
        single_real_len(x.m_sig(), x.m_payload(pos), pos, false) == Ok::<int, DemarshalError>(8),
        spec_parse(x.m_sig(), x.m_payload(pos), pos, false) == Ok::<SpecValue, DemarshalError>(
            SpecValue::Int64(x),
        ),
{
    lemma_auto_spec_u64_to_from_le_bytes();
    let p = x.m_payload(pos);
    assert(p.subrange(0, 8) =~= p);
    assert(read_u64_spec(p, false) == x as u64);
    assert((x as u64) as i64 == x) by (bit_vector);
}

/// Round trip for `d`, over the bit pattern.
pub proof fn lemma_roundtrip_double(x: DoubleBits, pos: int)
    ensures
        single_real_len(x.m_sig(), x.m_payload(pos), pos, false) == Ok::<int, DemarshalError>(8),
        spec_parse(x.m_sig(), x.m_payload(pos), pos, false) == Ok::<SpecValue, DemarshalError>(
            SpecValue::DoubleBits(x.bits),
        ),
{
    lemma_auto_spec_u64_to_from_le_bytes();
    let p = x.m_payload(pos);
    assert(p.subrange(0, 8) =~= p);
}

/// Round trip for `s`: a marshalled D-Bus string spans its length prefix,
/// bytes and NUL, and parses back to the same byte content.
pub proof fn lemma_roundtrip_string(x: DbusStr, pos: int)
    requires
        x.m_wf(),
    ensures
        single_real_len(x.m_sig(), x.m_payload(pos), pos, false) == Ok::<int, DemarshalError>(
            x.s.spec_bytes().len() + 5int,
        ),
        spec_parse(x.m_sig(), x.m_payload(pos), pos, false) == Ok::<SpecValue, DemarshalError>(
            SpecValue::Str(x.s.spec_bytes()),
        ),
{
    lemma_auto_spec_u32_to_from_le_bytes();
    encode_utf8_valid_utf8(x.s@);
    let b = x.s.spec_bytes();
    let p = x.m_payload(pos);
    assert(p.subrange(0, 4) =~= spec_u32_to_le_bytes(b.len() as u32));
    assert(p.subrange(4, 4 + b.len() as int) =~= b);
}

/// Round trip for `o`: a marshalled object path parses back to the same
/// byte content.
pub proof fn lemma_roundtrip_object_path(x: ObjPath, pos: int)
    requires
        x.m_wf(),
    ensures
        single_real_len(x.m_sig(), x.m_payload(pos), pos, false) == Ok::<int, DemarshalError>(
            x.s.spec_bytes().len() + 5int,
        ),
        spec_parse(x.m_sig(), x.m_payload(pos), pos, false) == Ok::<SpecValue, DemarshalError>(
            SpecValue::Path(x.s.spec_bytes()),
        ),
{
    lemma_auto_spec_u32_to_from_le_bytes();
    encode_utf8_valid_utf8(x.s@);
    let b = x.s.spec_bytes();
    let p = x.m_payload(pos);
    assert(p.subrange(0, 4) =~= spec_u32_to_le_bytes(b.len() as u32));
    assert(p.subrange(4, 4 + b.len() as int) =~= b);
}

/// Round trip for `g`: the marshalled signature value parses back to the
/// same signature bytes (the signature alphabet is ASCII, so the payload
/// always passes the UTF-8 check).
pub proof fn lemma_roundtrip_signature(x: SigBytes, pos: int)
    requires
        x.m_wf(),
    ensures
        single_real_len(x.m_sig(), x.m_payload(pos), pos, false) == Ok::<int, DemarshalError>(
            x.b@.len() + 2int,
        ),
        spec_parse(x.m_sig(), x.m_payload(pos), pos, false) == Ok::<SpecValue, DemarshalError>(
            SpecValue::Sig(x.b@),
        ),
{
    let p = x.m_payload(pos);
    assert(p[0] == x.b@.len() as u8);
    assert(p.subrange(1, x.b@.len() + 1int) =~= x.b@);
    crate::sig::lemma_multi_ascii(x.b@, 0, 0);
    crate::strings::lemma_ascii_valid_utf8(x.b@);
}

/// Alignment invariant: when iteration steps past one element, the next
/// element's absolute position is a multiple of its type's alignment, and
/// each yielded element starts at the iterator's own aligned position.
pub proof fn lemma_alignment_invariant(sig: Seq<u8>, d: Seq<u8>, pos: int, be: bool)
    requires
        valid_multi(sig),
        sig.len() > 0,
        step_len(sig, d, pos, be) is Ok,
        sig_single_len(sig, 0, 0)->0 < sig.len(),
        pos >= 0,
    ensures
        (pos + step_len(sig, d, pos, be)->Ok_0) % align_of_spec(sig[sig_single_len(sig, 0, 0)->0])
            == 0,
{
    lemma_multi_split(sig);
    let l = sig_single_len(sig, 0, 0)->0;
    let n = single_real_len(sig.take(l), d, pos, be)->Ok_0;
    crate::reader::lemma_single_real_len_bound(sig.take(l), d, pos, be);
    lemma_align_up(pos + n, align_of_spec(sig[l]));
}

/// Length exactness: a measured multi-buffer's signature spans exactly the
/// bytes it produced, so a reader walking the buffer consumes it whole.
pub proof fn lemma_length_exact(b: MultiBuf)
    requires
        b.wf(),
        b.measured(),
    ensures
        multi_real_len(b.sig@, b.data@, 0, false) == Ok::<int, DemarshalError>(
            b.data@.len() as int,
        ),
{
}

/// Boolean domain: a four byte value at a `b` position decodes to a
/// boolean exactly when it holds 0 or 1, and to `InvalidBoolean` for every
/// other value; nothing else can come out.
pub proof fn lemma_boolean_domain(d: Seq<u8>, pos: int, be: bool)
    requires
        d.len() >= 4,
    ensures
        ({
            let x = read_u32_spec(d, be);
            &&& x == 0 ==> spec_parse(seq![CH_B], d, pos, be) == Ok::<SpecValue, DemarshalError>(
                SpecValue::Boolean(false),
            )
            &&& x == 1 ==> spec_parse(seq![CH_B], d, pos, be) == Ok::<SpecValue, DemarshalError>(
                SpecValue::Boolean(true),
            )
            &&& (x != 0 && x != 1) ==> spec_parse(seq![CH_B], d, pos, be) == Err::<
                SpecValue,
                DemarshalError,
            >(DemarshalError::InvalidBoolean)
        }),
{
}

/// String UTF-8: any payload at an `s`, `o` or `g` position that is not
/// valid UTF-8 yields `InvalidString`.
pub proof fn lemma_string_utf8(d: Seq<u8>, pos: int, be: bool)
    ensures
        d.len() >= 4 && read_u32_spec(d, be) + 4 <= d.len() && !valid_utf8(
            d.subrange(4, 4 + read_u32_spec(d, be) as int),
        ) ==> spec_parse(seq![CH_S], d, pos, be) == Err::<SpecValue, DemarshalError>(
            DemarshalError::InvalidString,
        ) && spec_parse(seq![CH_O], d, pos, be) == Err::<SpecValue, DemarshalError>(
            DemarshalError::InvalidString,
        ),
        d.len() >= 1 && d[0] + 1 <= d.len() && !valid_utf8(d.subrange(1, d[0] + 1)) ==> spec_parse(
            seq![CH_G],
            d,
            pos,
            be,
        ) == Err::<SpecValue, DemarshalError>(DemarshalError::InvalidString),
{
}

/// Endianness symmetry at the scalar core: reading a byte-swapped scalar
/// window with the opposite endianness flag gives the same value, for each
/// scalar width. Multi-byte scalars are the only place the flag is read.
pub proof fn lemma_endian_symmetry(d: Seq<u8>)
    ensures
        d.len() >= 2 ==> read_u16_spec(d.subrange(0, 2).reverse(), true) == read_u16_spec(
            d,
            false,
        ),
        d.len() >= 4 ==> read_u32_spec(d.subrange(0, 4).reverse(), true) == read_u32_spec(
            d,
            false,
        ),
        d.len() >= 8 ==> read_u64_spec(d.subrange(0, 8).reverse(), true) == read_u64_spec(
            d,
            false,
        ),
{
    crate::wire::lemma_endian_swap(d);
}

/// Endianness symmetry lifted to whole scalar values: a scalar window
/// parses under a big-endian reader to the same value that its reversed
/// bytes parse to under a little-endian reader.
pub proof fn lemma_endian_symmetry_parse(sig: Seq<u8>, d: Seq<u8>, pos: int)
    requires
        d.len() == 2 || d.len() == 4 || d.len() == 8,
    ensures
        d.len() == 2 && (sig == seq![crate::sig::CH_Q] || sig == seq![crate::sig::CH_N])
            ==> spec_parse(sig, d.reverse(), pos, true) == spec_parse(sig, d, pos, false),
        d.len() == 4 && (sig == seq![crate::sig::CH_U] || sig == seq![crate::sig::CH_I] || sig
            == seq![CH_B] || sig == seq![crate::sig::CH_H]) ==> spec_parse(sig, d.reverse(), pos,
            true,
        ) == spec_parse(sig, d, pos, false),
        d.len() == 8 && (sig == seq![crate::sig::CH_T] || sig == seq![crate::sig::CH_X] || sig
            == seq![crate::sig::CH_D]) ==> spec_parse(sig, d.reverse(), pos, true) == spec_parse(
            sig,
            d,
            pos,
            false,
        ),
{
    crate::wire::lemma_endian_swap(d);
    if d.len() == 2 {
        assert(d.subrange(0, 2).reverse() =~= d.reverse());
    }
    if d.len() == 4 {
        assert(d.subrange(0, 4).reverse() =~= d.reverse());
    }
    if d.len() == 8 {
        assert(d.subrange(0, 8).reverse() =~= d.reverse());
    }
}


/// Gluing a round trip to iteration: a single well-formed value whose
/// payload spans its whole buffer is yielded whole by the multi-reader's
/// iteration step.
pub proof fn lemma_single_buffer_step(t: Seq<u8>, p: Seq<u8>, pos: int, be: bool)
    requires
        crate::sig::valid_single(t),
        single_real_len(t, p, pos, be) == Ok::<int, DemarshalError>(p.len() as int),
    ensures
        sig_single_len(t, 0, 0) == Some(t.len() as int),
        step_len(t, p, pos, be) == Ok::<int, DemarshalError>(p.len() as int),
{
    assert(t.take(t.len() as int) =~= t);
}


/// Round trip through a fresh buffer, for any marshallable value whose
/// payload measures exactly at position 0: appending it to an empty
/// multi-buffer makes the buffer's single iteration step cover exactly
/// the appended bytes, so the yielded single-reader sees the value whole.
pub proof fn lemma_append_fresh_roundtrip<T: Marshal + ?Sized>(v: &T)
    requires
        v.m_wf(),
        v.m_exact(0),
    ensures
        crate::sig::valid_single(v.m_sig()),
        sig_single_len(v.m_sig(), 0, 0) == Some(v.m_sig().len() as int),
        single_real_len(v.m_sig(), v.m_payload(0), 0, false) == Ok::<int, DemarshalError>(
            v.m_payload(0).len() as int,
        ),
        step_len(v.m_sig(), v.m_payload(0), 0, false) == Ok::<int, DemarshalError>(
            v.m_payload(0).len() as int,
        ),
{
    v.m_basics();
    assert(0int % v.m_align() == 0);
    v.m_props(0);
    lemma_single_buffer_step(v.m_sig(), v.m_payload(0), 0, false);
}


/// Round trip for `(...)`: the payload of a struct buffer parses to a
/// struct view holding the inner signature over the inner bytes; the
/// fields are then recovered element by element through that view.
pub proof fn lemma_roundtrip_struct(s: crate::writer::StructBuf, pos: int)
    ensures
        s.m_wf() ==> spec_parse(s.m_sig(), s.m_payload(pos), pos, false) == Ok::<
            SpecValue,
            DemarshalError,
        >(SpecValue::Strct { inner_sig: s.inner.sig@, data: s.inner.data@ }),
{
    if s.m_wf() {
        assert(s.outer_sig@.subrange(1, s.outer_sig@.len() - 1) =~= s.inner.sig@);
    }
}

/// Round trip for `a...` and `a{...}`: the payload of an array buffer
/// parses to the matching container view over exactly the bytes the
/// buffer holds, positioned after the length prefix and its padding.
pub proof fn lemma_roundtrip_array(a: crate::writer::ArrayBuf, pos: int)
    requires
        a.m_wf(),
        pos >= 0,
        pos % 4 == 0,
    ensures
        ({
            let ia = align_of_spec(a.outer_sig@[1]);
            let ds = 4 + crate::reader::pad_len(pos + 4, ia);
            a.outer_sig@[1] != crate::sig::CH_LBRACE ==> spec_parse(
                a.m_sig(),
                a.m_payload(pos),
                pos,
                false,
            ) == Ok::<SpecValue, DemarshalError>(
                SpecValue::Arr {
                    inner_sig: a.outer_sig@.skip(1),
                    data: a.data@,
                    pos: pos + ds,
                },
            )
        }),
        ({
            let ds = 4 + crate::reader::pad_len(pos + 4, 8);
            a.outer_sig@[1] == crate::sig::CH_LBRACE ==> spec_parse(
                a.m_sig(),
                a.m_payload(pos),
                pos,
                false,
            ) == Ok::<SpecValue, DemarshalError>(
                SpecValue::Dct {
                    outer_sig: a.outer_sig@,
                    key_sig: a.outer_sig@.subrange(2, 3),
                    value_sig: a.outer_sig@.subrange(3, a.outer_sig@.len() - 1),
                    data: a.data@,
                },
            )
        }),
{
    lemma_auto_spec_u32_to_from_le_bytes();
    let p = a.m_payload(pos);
    let ia = align_of_spec(a.outer_sig@[1]);
    assert(p.subrange(0, 4) =~= spec_u32_to_le_bytes(a.data@.len() as u32));
    lemma_align_up(pos + 4, ia);
    let ds = 4 + crate::reader::pad_len(pos + 4, ia);
    assert(p.subrange(ds, ds + a.data@.len()) =~= a.data@);
}

/// Round trip for `v` wrapping a `u32` (one concrete instance of the
/// variant case): the marshalled variant parses to a variant view whose
/// window parses in turn to the same value.
pub proof fn lemma_roundtrip_variant_u32(x: u32, v: crate::writer::VariantBuf, pos: int)
    requires
        pos >= 0,
        v.sig@ == seq![crate::sig::CH_U],
        v.data@ == spec_u32_to_le_bytes(x),
    ensures
        ({
            let p = v.m_payload(pos);
            let ds = crate::sig::align_up_spec(pos + 3, 4) - pos;
            &&& spec_parse(seq![crate::sig::CH_V], p, pos, false) == Ok::<
                SpecValue,
                DemarshalError,
            >(SpecValue::Var { sig: seq![crate::sig::CH_U], data: p.skip(ds), pos: pos + ds })
            &&& spec_parse(seq![crate::sig::CH_U], p.skip(ds), pos + ds, false) == Ok::<
                SpecValue,
                DemarshalError,
            >(SpecValue::UInt32(x))
        }),
{
    lemma_auto_spec_u32_to_from_le_bytes();
    let p = v.m_payload(pos);
    assert(p[0] == 1);
    assert(p.subrange(1, 2) =~= seq![crate::sig::CH_U]);
    assert(sig_single_len(seq![crate::sig::CH_U], 0, 0) == Some(1int));
    lemma_align_up(pos + 3, 4);
    let ds = crate::sig::align_up_spec(pos + 3, 4) - pos;
    assert(p.skip(ds) =~= v.data@);
    assert(p.skip(ds).subrange(0, 4) =~= spec_u32_to_le_bytes(x));
}


/// Endianness symmetry for `s`: reversing the scalar length prefix and
/// flipping the flag parses to the same string bytes that the
/// little-endian payload parses to.
pub proof fn lemma_endian_symmetry_string(x: DbusStr, pos: int)
    requires
        x.m_wf(),
    ensures
        ({
            let b = x.s.spec_bytes();
            let p_be = spec_u32_to_le_bytes(b.len() as u32).reverse() + b + seq![0u8];
            spec_parse(seq![CH_S], p_be, pos, true) == Ok::<SpecValue, DemarshalError>(
                SpecValue::Str(b),
            )
        }),
{
    lemma_auto_spec_u32_to_from_le_bytes();
    encode_utf8_valid_utf8(x.s@);
    let b = x.s.spec_bytes();
    let p_be = spec_u32_to_le_bytes(b.len() as u32).reverse() + b + seq![0u8];
    assert(p_be.subrange(0, 4) =~= spec_u32_to_le_bytes(b.len() as u32).reverse());
    assert(p_be.subrange(0, 4).reverse() =~= spec_u32_to_le_bytes(b.len() as u32));
    assert(p_be.subrange(4, 4 + b.len() as int) =~= b);
}

/// Endianness symmetry for `o`, as for `s`.
pub proof fn lemma_endian_symmetry_object_path(x: ObjPath, pos: int)
    requires
        x.m_wf(),
    ensures
        ({
            let b = x.s.spec_bytes();
            let p_be = spec_u32_to_le_bytes(b.len() as u32).reverse() + b + seq![0u8];
            spec_parse(seq![CH_O], p_be, pos, true) == Ok::<SpecValue, DemarshalError>(
                SpecValue::Path(b),
            )
        }),
{
    lemma_auto_spec_u32_to_from_le_bytes();
    encode_utf8_valid_utf8(x.s@);
    let b = x.s.spec_bytes();
    let p_be = spec_u32_to_le_bytes(b.len() as u32).reverse() + b + seq![0u8];
    assert(p_be.subrange(0, 4) =~= spec_u32_to_le_bytes(b.len() as u32).reverse());
    assert(p_be.subrange(0, 4).reverse() =~= spec_u32_to_le_bytes(b.len() as u32));
    assert(p_be.subrange(4, 4 + b.len() as int) =~= b);
}

/// Endianness symmetry for `g`: its length prefix is one byte, so the
/// very same payload parses identically under either flag.
pub proof fn lemma_endian_symmetry_signature(x: SigBytes, pos: int)
    requires
        x.m_wf(),
    ensures
        spec_parse(x.m_sig(), x.m_payload(pos), pos, true) == spec_parse(
            x.m_sig(),
            x.m_payload(pos),
            pos,
            false,
        ),
{
}

/// Endianness symmetry for `a...` and `a{...}`: reversing the scalar body
/// length and flipping the flag yields the same container view (the
/// elements inside the window are then covered element-wise).
pub proof fn lemma_endian_symmetry_array(a: crate::writer::ArrayBuf, pos: int)
    requires
        a.m_wf(),
        pos >= 0,
        pos % 4 == 0,
    ensures
        ({
            let ia = align_of_spec(a.outer_sig@[1]);
            let p_be = spec_u32_to_le_bytes(a.data@.len() as u32).reverse() + crate::writer::zeros(
                crate::reader::pad_len(pos + 4, ia),
            ) + a.data@;
            spec_parse(a.m_sig(), p_be, pos, true) == spec_parse(
                a.m_sig(),
                a.m_payload(pos),
                pos,
                false,
            )
        }),
{
    lemma_auto_spec_u32_to_from_le_bytes();
    let ia = align_of_spec(a.outer_sig@[1]);
    let le = spec_u32_to_le_bytes(a.data@.len() as u32);
    let z = crate::writer::zeros(crate::reader::pad_len(pos + 4, ia));
    let p_le = a.m_payload(pos);
    let p_be = le.reverse() + z + a.data@;
    lemma_align_up(pos + 4, ia);
    assert(p_le.subrange(0, 4) =~= le);
    assert(p_be.subrange(0, 4) =~= le.reverse());
    assert(p_be.subrange(0, 4).reverse() =~= le);
    let ds = 4 + crate::reader::pad_len(pos + 4, ia);
    assert(p_le.subrange(ds, ds + a.data@.len()) =~= a.data@);
    assert(p_be.subrange(ds, ds + a.data@.len()) =~= a.data@);
    if a.outer_sig@[1] == crate::sig::CH_LBRACE {
        let ds8 = 4 + crate::reader::pad_len(pos + 4, 8);
        assert(p_le.subrange(ds8, ds8 + a.data@.len()) =~= a.data@);
        assert(p_be.subrange(ds8, ds8 + a.data@.len()) =~= a.data@);
    }
}

/// Endianness symmetry for a `v` wrapping a `u32`: reversing the wrapped
/// scalar's bytes and flipping the flag parses to the same variant view
/// and the same inner value.
pub proof fn lemma_endian_symmetry_variant_u32(x: u32, pos: int)
    requires
        pos >= 0,
    ensures
        ({
            let ds = crate::sig::align_up_spec(pos + 3, 4) - pos;
            let p_be = seq![1u8, crate::sig::CH_U, 0u8] + crate::writer::zeros(
                crate::reader::pad_len(pos + 3, 4),
            ) + spec_u32_to_le_bytes(x).reverse();
            &&& spec_parse(seq![crate::sig::CH_V], p_be, pos, true) == Ok::<
                SpecValue,
                DemarshalError,
            >(
                SpecValue::Var {
                    sig: seq![crate::sig::CH_U],
                    data: p_be.skip(ds),
                    pos: pos + ds,
                },
            )
            &&& spec_parse(seq![crate::sig::CH_U], p_be.skip(ds), pos + ds, true) == Ok::<
                SpecValue,
                DemarshalError,
            >(SpecValue::UInt32(x))
        }),
{
    lemma_auto_spec_u32_to_from_le_bytes();
    let p_be = seq![1u8, crate::sig::CH_U, 0u8] + crate::writer::zeros(
        crate::reader::pad_len(pos + 3, 4),
    ) + spec_u32_to_le_bytes(x).reverse();
    assert(p_be[0] == 1);
    assert(p_be.subrange(1, 2) =~= seq![crate::sig::CH_U]);
    assert(sig_single_len(seq![crate::sig::CH_U], 0, 0) == Some(1int));
    lemma_align_up(pos + 3, 4);
    let ds = crate::sig::align_up_spec(pos + 3, 4) - pos;
    assert(p_be.skip(ds) =~= spec_u32_to_le_bytes(x).reverse());
    assert(p_be.skip(ds).subrange(0, 4) =~= spec_u32_to_le_bytes(x).reverse());
    assert(p_be.skip(ds).subrange(0, 4).reverse() =~= spec_u32_to_le_bytes(x));
}

} // verus!
