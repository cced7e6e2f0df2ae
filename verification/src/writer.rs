//! Owned builders that marshal values into wire bytes: a multi-buffer for a
//! sequence of values, and array, dict, struct and variant buffers, plus
//! the [`Marshal`] capability they all accept.
//!
//! Builders always emit little-endian scalars; the enclosing message layer
//! tags the produced buffer accordingly.

use crate::error::DemarshalError;
use crate::reader::{
    lemma_single_real_len_bound, multi_real_len, pad_len, single_real_len, step_len, Multi,
    ARRAY_MAX_LEN,
};
use crate::sig::{
    align_of, align_of_spec, align_up_spec, check_multi, check_single, lemma_align_up,
    lemma_multi_concat, lemma_single_extend, lemma_single_len_bounds, lemma_single_truncate,
    sig_single_len, valid_multi, valid_single, CH_A, CH_D, CH_G, CH_I, CH_LBRACE, CH_LPAREN,
    CH_N, CH_O, CH_Q, CH_RBRACE, CH_RPAREN, CH_S, CH_T, CH_U, CH_V, CH_X, CH_Y, SIG_MAX_LEN,
};
use crate::strings::{dbus_str_check, dbus_str_ok, object_path_check, object_path_ok};
use crate::wire::{push_bytes, push_u16_le, push_u32_le, push_u64_le};
use vstd::bytes::{
    lemma_auto_spec_u16_to_from_le_bytes, lemma_auto_spec_u32_to_from_le_bytes,
    lemma_auto_spec_u64_to_from_le_bytes, spec_u16_to_le_bytes, spec_u32_to_le_bytes,
    spec_u64_to_le_bytes,
};
use vstd::prelude::*;
use vstd::string::StringSliceAdditionalSpecFns;

verus! {

/// A sequence of `n` zero bytes.
pub open spec fn zeros(n: int) -> Seq<u8> {
    Seq::new(n as nat, |i: int| 0u8)
}

/// Extends `v` with zero bytes until its length is a multiple of `align`.
pub fn align_buf(v: &mut Vec<u8>, align: usize)
    requires
        align == 1 || align == 2 || align == 4 || align == 8,
    ensures
        final(v)@ == old(v)@ + zeros(pad_len(old(v)@.len() as int, align as int)),
{
    proof {
        lemma_align_up(old(v)@.len() as int, align as int);
    }
    let rem = v.len() % align;
    let pad = if rem == 0 {
        0
    } else {
        align - rem
    };
    let mut i: usize = 0;
    while i < pad
        invariant
            i <= pad,
            v@ =~= old(v)@ + zeros(i as int),
        decreases pad - i,
    {
        v.push(0);
        i = i + 1;
        proof {
            assert(old(v)@ + zeros(i as int) =~= (old(v)@ + zeros(i - 1)).push(0u8));
        }
    }
    proof {
        assert(pad as int == pad_len(old(v)@.len() as int, align as int));
        assert(v@ =~= old(v)@ + zeros(pad as int));
    }
}

/// Whether two byte slices hold the same bytes.
pub fn bytes_eq(a: &[u8], b: &[u8]) -> (r: bool)
    ensures
        r == (a@ == b@),
{
    if a.len() != b.len() {
        proof {
            assert(a@.len() != b@.len());
        }
        return false;
    }
    let mut i: usize = 0;
    while i < a.len()
        invariant
            i <= a@.len(),
            a@.len() == b@.len(),
            forall|j: int| 0 <= j < i ==> a@[j] == b@[j],
        decreases a@.len() - i,
    {
        if a[i] != b[i] {
            return false;
        }
        i = i + 1;
    }
    proof {
        assert(a@ =~= b@);
    }
    true
}

/// The capability of appending oneself to a byte buffer: a value reports
/// the signature of exactly one element, and writes its own bytes with
/// correct leading alignment for any buffer position.
pub trait Marshal {
    /// The value is in a state fit for marshalling.
    spec fn m_wf(&self) -> bool;

    /// The single signature of this value.
    spec fn m_sig(&self) -> Seq<u8>;

    /// The natural alignment of this value.
    spec fn m_align(&self) -> int;

    /// The bytes the value contributes when its first byte lands at the
    /// aligned absolute position `pos` (interior padding included, leading
    /// padding excluded).
    spec fn m_payload(&self, pos: int) -> Seq<u8>;

    /// True when the payload at `pos` measures exactly under
    /// [`single_real_len`]; interior array padding can make a payload
    /// larger than the span the reader counts.
    spec fn m_exact(&self, pos: int) -> bool;

    /// The signature is a well-formed single and the alignment is the one
    /// of its first character.
    proof fn m_basics(&self)
        requires
            self.m_wf(),
        ensures
            valid_single(self.m_sig()),
            self.m_align() == align_of_spec(self.m_sig()[0]),
    ;

    /// An exact payload measures as its own length.
    proof fn m_props(&self, pos: int)
        requires
            self.m_wf(),
            pos >= 0,
            pos % self.m_align() == 0,
        ensures
            self.m_exact(pos) ==> single_real_len(self.m_sig(), self.m_payload(pos), pos, false)
                == Ok::<int, DemarshalError>(self.m_payload(pos).len() as int),
    ;

    /// The wire signature of exactly one value.
    fn signature(&self) -> (r: Vec<u8>)
        requires
            self.m_wf(),
        ensures
            r@ == self.m_sig(),
    ;

    /// Appends the value's bytes, padding first to the value's alignment.
    fn append_data_to(&self, v: &mut Vec<u8>)
        requires
            self.m_wf(),
        ensures
            final(v)@ == old(v)@ + zeros(pad_len(old(v)@.len() as int, self.m_align()))
                + self.m_payload(align_up_spec(old(v)@.len() as int, self.m_align())),
    ;
}

/// Reading a single reads nothing past its reported span: extending the
/// window does not change a successful outcome.
pub proof fn lemma_single_real_len_extend(sig: Seq<u8>, d: Seq<u8>, e: Seq<u8>, pos: int, be: bool)
    requires
        single_real_len(sig, d, pos, be) is Ok,
    ensures
        single_real_len(sig, d + e, pos, be) == single_real_len(sig, d, pos, be),
    decreases d.len(), sig.len(), 0int,
{
    let x = d + e;
    assert(x.len() >= d.len());
    let c = sig[0];
    if c == CH_S || c == CH_O || c == CH_A {
        assert(x.subrange(0, 4) =~= d.subrange(0, 4));
    } else if c == CH_G {
        assert(x[0] == d[0]);
    } else if c == CH_V {
        let sl = d[0] as int;
        assert(x[0] == d[0]);
        assert(x.subrange(1, sl + 1) =~= d.subrange(1, sl + 1));
        let sb = d.subrange(1, sl + 1);
        if valid_single(sb) {
            let ds = align_up_spec(pos + sl + 2, align_of_spec(sb[0])) - pos;
            if ds <= d.len() {
                assert(x.skip(ds) =~= d.skip(ds) + e);
                lemma_single_real_len_extend(sb, d.skip(ds), e, pos + ds, be);
            }
        }
    } else if c == CH_LPAREN {
        if sig.len() >= 2 {
            lemma_multi_real_len_extend(sig.subrange(1, sig.len() - 1), d, e, 0, be);
        }
    }
}

/// Reading a multi run reads nothing past its reported span either.
pub proof fn lemma_multi_real_len_extend(sig: Seq<u8>, d: Seq<u8>, e: Seq<u8>, pos: int, be: bool)
    requires
        multi_real_len(sig, d, pos, be) is Ok,
    ensures
        multi_real_len(sig, d + e, pos, be) == multi_real_len(sig, d, pos, be),
    decreases d.len(), sig.len(), 1int,
{
    let x = d + e;
    if sig.len() == 0 {
    } else {
        let l = sig_single_len(sig, 0, 0)->0;
        if sig_single_len(sig, 0, 0) is Some && 0 < l <= sig.len() {
            match step_len(sig, d, pos, be) {
                Ok(m) => {
                    lemma_single_real_len_extend(sig.take(l), d, e, pos, be);
                    lemma_single_real_len_bound(sig.take(l), d, pos, be);
                    if l == sig.len() {
                    } else {
                        assert(step_len(sig, x, pos, be) == Ok::<int, DemarshalError>(m));
                        if 0 <= m <= d.len() {
                            assert(x.skip(m) =~= d.skip(m) + e);
                            lemma_multi_real_len_extend(sig.skip(l), d.skip(m), e, pos + m, be);
                        }
                    }
                },
                Err(_) => {},
            }
        }
    }
}

/// A parse of the leading single of a longer signature is the parse of
/// that single alone.
pub proof fn lemma_single_len_prefix(s: Seq<u8>, w: Seq<u8>)
    requires
        sig_single_len(s, 0, 0) is Some,
        0 < sig_single_len(s, 0, 0)->0 <= s.len(),
    ensures
        sig_single_len(s + w, 0, 0) == sig_single_len(s, 0, 0),
{
    let l = sig_single_len(s, 0, 0)->0;
    lemma_single_truncate(s, 0, 0, l);
    assert(s + w =~= s.take(l) + (s.skip(l) + w));
    lemma_single_extend(s.take(l), 0, 0, s.skip(l) + w);
}

/// Helper for [`lemma_measured_append`]: the case of appending after a
/// buffer whose signature is a lone single spanning all of it.
#[verifier::rlimit(100)]
proof fn lemma_measured_append_last(s: Seq<u8>, d: Seq<u8>, t: Seq<u8>, p: Seq<u8>, pos: int)
    requires
        valid_multi(s),
        valid_single(t),
        sig_single_len(s, 0, 0) == Some(s.len() as int),
        s.len() > 0,
        s.len() + t.len() <= SIG_MAX_LEN,
        multi_real_len(s, d, pos, false) == Ok::<int, DemarshalError>(d.len() as int),
        single_real_len(
            t,
            p,
            align_up_spec(pos + d.len(), align_of_spec(t[0])),
            false,
        ) == Ok::<int, DemarshalError>(p.len() as int),
        pos >= 0,
    ensures
        multi_real_len(
            s + t,
            d + zeros(pad_len(pos + d.len(), align_of_spec(t[0]))) + p,
            pos,
            false,
        ) == Ok::<int, DemarshalError>(
            d.len() + pad_len(pos + d.len(), align_of_spec(t[0])) + p.len(),
        ),
{
    let a = align_of_spec(t[0]);
    let z = zeros(pad_len(pos + d.len(), a));
    let dd = d + z + p;
    let st = s + t;
    let l = s.len() as int;
    lemma_single_len_bounds(t, 0, 0);
    lemma_single_len_prefix(s, t);
    assert(sig_single_len(st, 0, 0) == Some(l));
    assert(st.take(l) =~= s.take(l));
    assert(st.skip(l) =~= t);
    assert(s.take(l) =~= s);
    lemma_single_real_len_bound(s, d, pos, false);
    assert(step_len(s, d, pos, false) == Ok::<int, DemarshalError>(d.len() as int));
    assert(single_real_len(s.take(l), d, pos, false) is Ok);
    let n = single_real_len(s, d, pos, false)->Ok_0;
    assert(single_real_len(s, d, pos, false) is Ok && n == d.len());
    lemma_single_real_len_extend(s, d, z + p, pos, false);
    assert(dd =~= d + (z + p));
    assert(single_real_len(st.take(l), dd, pos, false) == Ok::<int, DemarshalError>(n));
    assert(st[l] == t[0]);
    lemma_align_up(pos + d.len(), a);
    let m = n + pad_len(pos + n, a);
    assert(m == d.len() + z.len());
    assert(m <= dd.len());
    assert(step_len(st, dd, pos, false) == Ok::<int, DemarshalError>(m));
    assert(dd.skip(m) =~= p);
    assert(pos + m == align_up_spec(pos + d.len(), a));
    assert(sig_single_len(t, 0, 0) == Some(t.len() as int));
    assert(t.take(t.len() as int) =~= t);
    assert(t.skip(t.len() as int).len() == 0);
    assert(step_len(t, p, pos + m, false) == Ok::<int, DemarshalError>(p.len() as int));
    assert(multi_real_len(t, p, pos + m, false) == Ok::<int, DemarshalError>(p.len() as int));
    assert(multi_real_len(st, dd, pos, false) == Ok::<int, DemarshalError>(m + p.len()));
}

/// Appending one exactly-measuring value after a measured byte stream
/// keeps the stream measured: the new signature and bytes still span
/// exactly the buffer.
#[verifier::rlimit(100)]
pub proof fn lemma_measured_append(s: Seq<u8>, d: Seq<u8>, t: Seq<u8>, p: Seq<u8>, pos: int)
    requires
        valid_multi(s),
        valid_single(t),
        s.len() + t.len() <= SIG_MAX_LEN,
        multi_real_len(s, d, pos, false) == Ok::<int, DemarshalError>(d.len() as int),
        single_real_len(
            t,
            p,
            align_up_spec(pos + d.len(), align_of_spec(t[0])),
            false,
        ) == Ok::<int, DemarshalError>(p.len() as int),
        s.len() == 0 ==> pad_len(pos + d.len(), align_of_spec(t[0])) == 0,
        pos >= 0,
    ensures
        valid_multi(s + t),
        multi_real_len(
            s + t,
            d + zeros(pad_len(pos + d.len(), align_of_spec(t[0]))) + p,
            pos,
            false,
        ) == Ok::<int, DemarshalError>(
            d.len() + pad_len(pos + d.len(), align_of_spec(t[0])) + p.len(),
        ),
    decreases s.len(),
{
    let a = align_of_spec(t[0]);
    let z = zeros(pad_len(pos + d.len(), a));
    let dd = d + z + p;
    let st = s + t;
    lemma_single_len_bounds(t, 0, 0);
    lemma_multi_concat(s, t);
    if s.len() == 0 {
        assert(d.len() == 0);
        assert(z.len() == 0);
        assert(dd =~= p);
        assert(st =~= t);
        assert(align_up_spec(pos + d.len(), a) == pos + d.len());
        assert(single_real_len(t, p, pos, false) == Ok::<int, DemarshalError>(p.len() as int));
        assert(sig_single_len(st, 0, 0) == Some(st.len() as int));
        assert(st.take(st.len() as int) =~= st);
        assert(step_len(st, dd, pos, false) == Ok::<int, DemarshalError>(p.len() as int));
        assert(multi_real_len(st, dd, pos, false) == Ok::<int, DemarshalError>(p.len() as int));
    } else {
        let l = sig_single_len(s, 0, 0)->0;
        lemma_single_len_bounds(s, 0, 0);
        if l == s.len() {
            lemma_measured_append_last(s, d, t, p, pos);
        } else {
            lemma_single_len_prefix(s, t);
            assert(sig_single_len(st, 0, 0) == Some(l));
            assert(st.take(l) =~= s.take(l));
            assert(st.skip(l) =~= s.skip(l) + t);
            lemma_single_real_len_bound(s.take(l), d, pos, false);
            let m = step_len(s, d, pos, false)->Ok_0;
            assert(step_len(s, d, pos, false) is Ok);
            assert(0 <= m <= d.len());
            assert(multi_real_len(s.skip(l), d.skip(m), pos + m, false) == Ok::<
                int,
                DemarshalError,
            >(d.len() - m));
            lemma_single_real_len_extend(s.take(l), d, z + p, pos, false);
            assert(dd =~= d + (z + p));
            assert(st[l] == s[l]);
            assert(step_len(st, dd, pos, false) == step_len(s, d, pos, false));
            assert(valid_multi(s.skip(l)));
            assert(pos + m + d.skip(m).len() == pos + d.len());
            lemma_measured_append(s.skip(l), d.skip(m), t, p, pos + m);
            assert((s.skip(l) + t) =~= st.skip(l));
            assert((d.skip(m) + zeros(pad_len(pos + m + d.skip(m).len(), a)) + p) =~= dd.skip(
                m,
            ));
            assert(multi_real_len(st.skip(l), dd.skip(m), pos + m, false) == Ok::<
                int,
                DemarshalError,
            >(d.skip(m).len() + pad_len(pos + d.len(), a) + p.len()));
            assert(multi_real_len(st, dd, pos, false) == Ok::<int, DemarshalError>(
                m + (d.skip(m).len() + pad_len(pos + d.len(), a) + p.len()),
            ));
        }
    }
}

/// An appendable buffer for a sequence of values; it carries the multi
/// signature of what it holds.
#[derive(Clone)]
pub struct MultiBuf {
    /// The concatenated signature of the appended values.
    pub sig: Vec<u8>,
    /// The marshalled bytes of the appended values.
    pub data: Vec<u8>,
}

impl MultiBuf {
    /// The signature is a well-formed multi.
    pub open spec fn wf(self) -> bool {
        valid_multi(self.sig@)
    }

    /// The signature measures the bytes exactly: a reader walking `sig`
    /// over `data` consumes the whole buffer.
    pub open spec fn measured(self) -> bool {
        multi_real_len(self.sig@, self.data@, 0, false) == Ok::<int, DemarshalError>(
            self.data@.len() as int,
        )
    }

    /// An empty buffer with an empty signature.
    pub fn new() -> (r: MultiBuf)
        ensures
            r.sig@.len() == 0,
            r.data@.len() == 0,
            r.wf(),
            r.measured(),
    {
        MultiBuf { sig: Vec::new(), data: Vec::new() }
    }

    /// A reader over the bytes built so far. Builders write little-endian,
    /// so the reader is little-endian.
    pub fn multi(&self) -> (r: Multi<'_>)
        requires
            self.wf(),
            self.data@.len() + 8 <= usize::MAX,
        ensures
            r.sig@ == self.sig@,
            r.data@ == self.data@,
            !r.is_big_endian,
            r.wf(),
    {
        Multi { sig: self.sig.as_slice(), data: self.data.as_slice(), is_big_endian: false }
    }

    /// Appends one value: its signature is added to the buffer's signature
    /// and its aligned bytes to the data. Fails with `NumberTooBig`, and
    /// changes nothing, when the signature would exceed 255 bytes.
    pub fn append<T: Marshal + ?Sized>(&mut self, value: &T) -> (r: Result<(), DemarshalError>)
        requires
            old(self).wf(),
            value.m_wf(),
        ensures
            final(self).wf(),
            match r {
                Ok(()) => {
                    let pos = align_up_spec(old(self).data@.len() as int, value.m_align());
                    &&& old(self).sig@.len() + value.m_sig().len() <= SIG_MAX_LEN
                    &&& final(self).sig@ == old(self).sig@ + value.m_sig()
                    &&& final(self).data@ == old(self).data@ + zeros(
                        pad_len(old(self).data@.len() as int, value.m_align()),
                    ) + value.m_payload(pos)
                    &&& (old(self).measured() && value.m_exact(pos)) ==> final(self).measured()
                },
                Err(e) => {
                    &&& e == DemarshalError::NumberTooBig
                    &&& old(self).sig@.len() + value.m_sig().len() > SIG_MAX_LEN
                    &&& *final(self) == *old(self)
                },
            },
    {
        proof {
            value.m_basics();
        }
        let vsig = value.signature();
        if self.sig.len() + vsig.len() > SIG_MAX_LEN {
            return Err(DemarshalError::NumberTooBig);
        }
        let ghost presig = self.sig@;
        let ghost pre = self.data@;
        push_bytes(&mut self.sig, vsig.as_slice());
        proof {
            lemma_multi_concat(presig, value.m_sig());
        }
        value.append_data_to(&mut self.data);
        proof {
            let al = value.m_align();
            lemma_align_up(pre.len() as int, al);
            let pos = align_up_spec(pre.len() as int, al);
            value.m_props(pos);
            if old(self).measured() && value.m_exact(pos) {
                if presig.len() == 0 {
                    assert(multi_real_len(presig, pre, 0, false) == Ok::<int, DemarshalError>(
                        0,
                    ));
                    assert(pre.len() == 0);
                    assert(pad_len(0int, al) == 0) by {
                        lemma_align_up(0int, al);
                    }
                }
                lemma_measured_append(presig, pre, value.m_sig(), value.m_payload(pos), 0);
            }
        }
        Ok(())
    }

    /// The final `(signature, bytes)` pair, ready for transmission.
    pub fn into_inner(self) -> (r: (Vec<u8>, Vec<u8>))
        ensures
            r.0 == self.sig,
            r.1 == self.data,
    {
        (self.sig, self.data)
    }
}

impl Default for MultiBuf {
    /// Same as [`MultiBuf::new`].
    fn default() -> (r: MultiBuf)
        ensures
            r.sig@.len() == 0,
            r.data@.len() == 0,
            r.wf(),
            r.measured(),
    {
        MultiBuf::new()
    }
}

/// Marshalling of the built-in scalar types and the four container
/// buffers. Scalars write their little-endian bytes after padding to their
/// natural alignment.
impl Marshal for u8 {
    open spec fn m_wf(&self) -> bool {
        true
    }

    open spec fn m_sig(&self) -> Seq<u8> {
        seq![CH_Y]
    }

    open spec fn m_align(&self) -> int {
        1
    }

    open spec fn m_payload(&self, pos: int) -> Seq<u8> {
        seq![*self]
    }

    open spec fn m_exact(&self, pos: int) -> bool {
        true
    }

    proof fn m_basics(&self) {
        assert(sig_single_len(seq![CH_Y], 0, 0) == Some(1int));
    }

    proof fn m_props(&self, pos: int) {
    }

    fn signature(&self) -> (r: Vec<u8>) {
        let mut r: Vec<u8> = Vec::new();
        r.push(CH_Y);
        proof {
            assert(r@ =~= seq![CH_Y]);
        }
        r
    }

    fn append_data_to(&self, v: &mut Vec<u8>) {
        align_buf(v, 1);
        v.push(*self);
        proof {
            assert(v@ =~= old(v)@ + zeros(pad_len(old(v)@.len() as int, 1)) + seq![*self]);
        }
    }
}

impl Marshal for u16 {
    open spec fn m_wf(&self) -> bool {
        true
    }

    open spec fn m_sig(&self) -> Seq<u8> {
        seq![CH_Q]
    }

    open spec fn m_align(&self) -> int {
        2
    }

    open spec fn m_payload(&self, pos: int) -> Seq<u8> {
        spec_u16_to_le_bytes(*self)
    }

    open spec fn m_exact(&self, pos: int) -> bool {
        true
    }

    proof fn m_basics(&self) {
        assert(sig_single_len(seq![CH_Q], 0, 0) == Some(1int));
    }

    proof fn m_props(&self, pos: int) {
        lemma_auto_spec_u16_to_from_le_bytes();
    }

    fn signature(&self) -> (r: Vec<u8>) {
        let mut r: Vec<u8> = Vec::new();
        r.push(CH_Q);
        proof {
            assert(r@ =~= seq![CH_Q]);
        }
        r
    }

    fn append_data_to(&self, v: &mut Vec<u8>) {
        align_buf(v, 2);
        push_u16_le(v, *self);
    }
}

impl Marshal for u32 {
    open spec fn m_wf(&self) -> bool {
        true
    }

    open spec fn m_sig(&self) -> Seq<u8> {
        seq![CH_U]
    }

    open spec fn m_align(&self) -> int {
        4
    }

    open spec fn m_payload(&self, pos: int) -> Seq<u8> {
        spec_u32_to_le_bytes(*self)
    }

    open spec fn m_exact(&self, pos: int) -> bool {
        true
    }

    proof fn m_basics(&self) {
        assert(sig_single_len(seq![CH_U], 0, 0) == Some(1int));
    }

    proof fn m_props(&self, pos: int) {
        lemma_auto_spec_u32_to_from_le_bytes();
    }

    fn signature(&self) -> (r: Vec<u8>) {
        let mut r: Vec<u8> = Vec::new();
        r.push(CH_U);
        proof {
            assert(r@ =~= seq![CH_U]);
        }
        r
    }

    fn append_data_to(&self, v: &mut Vec<u8>) {
        align_buf(v, 4);
        push_u32_le(v, *self);
    }
}

impl Marshal for u64 {
    open spec fn m_wf(&self) -> bool {
        true
    }

    open spec fn m_sig(&self) -> Seq<u8> {
        seq![CH_T]
    }

    open spec fn m_align(&self) -> int {
        8
    }

    open spec fn m_payload(&self, pos: int) -> Seq<u8> {
        spec_u64_to_le_bytes(*self)
    }

    open spec fn m_exact(&self, pos: int) -> bool {
        true
    }

    proof fn m_basics(&self) {
        assert(sig_single_len(seq![CH_T], 0, 0) == Some(1int));
    }

    proof fn m_props(&self, pos: int) {
        lemma_auto_spec_u64_to_from_le_bytes();
    }

    fn signature(&self) -> (r: Vec<u8>) {
        let mut r: Vec<u8> = Vec::new();
        r.push(CH_T);
        proof {
            assert(r@ =~= seq![CH_T]);
        }
        r
    }

    fn append_data_to(&self, v: &mut Vec<u8>) {
        align_buf(v, 8);
        push_u64_le(v, *self);
    }
}

impl Marshal for i16 {
    open spec fn m_wf(&self) -> bool {
        true
    }

    open spec fn m_sig(&self) -> Seq<u8> {
        seq![CH_N]
    }

    open spec fn m_align(&self) -> int {
        2
    }

    open spec fn m_payload(&self, pos: int) -> Seq<u8> {
        spec_u16_to_le_bytes(*self as u16)
    }

    open spec fn m_exact(&self, pos: int) -> bool {
        true
    }

    proof fn m_basics(&self) {
        assert(sig_single_len(seq![CH_N], 0, 0) == Some(1int));
    }

    proof fn m_props(&self, pos: int) {
        lemma_auto_spec_u16_to_from_le_bytes();
    }

    fn signature(&self) -> (r: Vec<u8>) {
        let mut r: Vec<u8> = Vec::new();
        r.push(CH_N);
        proof {
            assert(r@ =~= seq![CH_N]);
        }
        r
    }

    fn append_data_to(&self, v: &mut Vec<u8>) {
        align_buf(v, 2);
        push_u16_le(v, *self as u16);
    }
}

impl Marshal for i32 {
    open spec fn m_wf(&self) -> bool {
        true
    }

    open spec fn m_sig(&self) -> Seq<u8> {
        seq![CH_I]
    }

    open spec fn m_align(&self) -> int {
        4
    }

    open spec fn m_payload(&self, pos: int) -> Seq<u8> {
        spec_u32_to_le_bytes(*self as u32)
    }

    open spec fn m_exact(&self, pos: int) -> bool {
        true
    }

    proof fn m_basics(&self) {
        assert(sig_single_len(seq![CH_I], 0, 0) == Some(1int));
    }

    proof fn m_props(&self, pos: int) {
        lemma_auto_spec_u32_to_from_le_bytes();
    }

    fn signature(&self) -> (r: Vec<u8>) {
        let mut r: Vec<u8> = Vec::new();
        r.push(CH_I);
        proof {
            assert(r@ =~= seq![CH_I]);
        }
        r
    }

    fn append_data_to(&self, v: &mut Vec<u8>) {
        align_buf(v, 4);
        push_u32_le(v, *self as u32);
    }
}

impl Marshal for i64 {
    open spec fn m_wf(&self) -> bool {
        true
    }

    open spec fn m_sig(&self) -> Seq<u8> {
        seq![CH_X]
    }

    open spec fn m_align(&self) -> int {
        8
    }

    open spec fn m_payload(&self, pos: int) -> Seq<u8> {
        spec_u64_to_le_bytes(*self as u64)
    }

    open spec fn m_exact(&self, pos: int) -> bool {
        true
    }

    proof fn m_basics(&self) {
        assert(sig_single_len(seq![CH_X], 0, 0) == Some(1int));
    }

    proof fn m_props(&self, pos: int) {
        lemma_auto_spec_u64_to_from_le_bytes();
    }

    fn signature(&self) -> (r: Vec<u8>) {
        let mut r: Vec<u8> = Vec::new();
        r.push(CH_X);
        proof {
            assert(r@ =~= seq![CH_X]);
        }
        r
    }

    fn append_data_to(&self, v: &mut Vec<u8>) {
        align_buf(v, 8);
        push_u64_le(v, *self as u64);
    }
}

/// A double-precision value carried as its IEEE 754 bit pattern, so that
/// the codec marshals `d` values while staying within integer arithmetic.
#[derive(Clone, Copy, PartialEq, Eq, Structural, Debug)]
pub struct DoubleBits {
    /// The IEEE 754 bit pattern of the value.
    pub bits: u64,
}

impl Marshal for DoubleBits {
    open spec fn m_wf(&self) -> bool {
        true
    }

    open spec fn m_sig(&self) -> Seq<u8> {
        seq![CH_D]
    }

    open spec fn m_align(&self) -> int {
        8
    }

    open spec fn m_payload(&self, pos: int) -> Seq<u8> {
        spec_u64_to_le_bytes(self.bits)
    }

    open spec fn m_exact(&self, pos: int) -> bool {
        true
    }

    proof fn m_basics(&self) {
        assert(sig_single_len(seq![CH_D], 0, 0) == Some(1int));
    }

    proof fn m_props(&self, pos: int) {
        lemma_auto_spec_u64_to_from_le_bytes();
    }

    fn signature(&self) -> (r: Vec<u8>) {
        let mut r: Vec<u8> = Vec::new();
        r.push(CH_D);
        proof {
            assert(r@ =~= seq![CH_D]);
        }
        r
    }

    fn append_data_to(&self, v: &mut Vec<u8>) {
        align_buf(v, 8);
        push_u64_le(v, self.bits);
    }
}

/// A borrowed D-Bus string: valid UTF-8 without interior NUL, shorter than
/// 128 MiB.
#[derive(Clone, Copy)]
pub struct DbusStr<'a> {
    /// The string content.
    pub s: &'a str,
}

impl<'a> DbusStr<'a> {
    /// Wraps `s` after checking the D-Bus string rules.
    pub fn new(s: &'a str) -> (r: Result<DbusStr<'a>, DemarshalError>)
        ensures
            match r {
                Ok(x) => x.s == s && dbus_str_ok(s.spec_bytes()),
                Err(e) => e == DemarshalError::InvalidString && !dbus_str_ok(s.spec_bytes()),
            },
    {
        if dbus_str_check(s) {
            Ok(DbusStr { s })
        } else {
            Err(DemarshalError::InvalidString)
        }
    }
}

impl<'a> Marshal for DbusStr<'a> {
    open spec fn m_wf(&self) -> bool {
        dbus_str_ok(self.s.spec_bytes())
    }

    open spec fn m_sig(&self) -> Seq<u8> {
        seq![CH_S]
    }

    open spec fn m_align(&self) -> int {
        4
    }

    open spec fn m_payload(&self, pos: int) -> Seq<u8> {
        spec_u32_to_le_bytes(self.s.spec_bytes().len() as u32) + self.s.spec_bytes() + seq![0u8]
    }

    open spec fn m_exact(&self, pos: int) -> bool {
        true
    }

    proof fn m_basics(&self) {
        assert(sig_single_len(seq![CH_S], 0, 0) == Some(1int));
    }

    proof fn m_props(&self, pos: int) {
        lemma_auto_spec_u32_to_from_le_bytes();
        let b = self.s.spec_bytes();
        let p = self.m_payload(pos);
        assert(p.subrange(0, 4) =~= spec_u32_to_le_bytes(b.len() as u32));
    }

    fn signature(&self) -> (r: Vec<u8>) {
        let mut r: Vec<u8> = Vec::new();
        r.push(CH_S);
        proof {
            assert(r@ =~= seq![CH_S]);
        }
        r
    }

    fn append_data_to(&self, v: &mut Vec<u8>) {
        align_buf(v, 4);
        push_u32_le(v, self.s.len() as u32);
        push_bytes(v, self.s.as_bytes());
        v.push(0);
        proof {
            assert(v@ =~= old(v)@ + zeros(pad_len(old(v)@.len() as int, 4)) + self.m_payload(
                align_up_spec(old(v)@.len() as int, 4),
            ));
        }
    }
}

/// A borrowed object path, following the path syntax.
#[derive(Clone, Copy)]
pub struct ObjPath<'a> {
    /// The path content.
    pub s: &'a str,
}

impl<'a> ObjPath<'a> {
    /// Wraps `s` after checking the object path syntax and the 128 MiB
    /// string cap, which the length prefix of the wire form needs.
    pub fn new(s: &'a str) -> (r: Result<ObjPath<'a>, DemarshalError>)
        ensures
            match r {
                Ok(x) => {
                    &&& x.s == s
                    &&& object_path_ok(s.spec_bytes())
                    &&& s.spec_bytes().len() < 134217728
                    &&& x.m_wf()
                },
                Err(e) => e == DemarshalError::InvalidString && !(object_path_ok(s.spec_bytes())
                    && s.spec_bytes().len() < 134217728),
            },
    {
        if object_path_check(s) && s.as_bytes().len() < 134217728 {
            Ok(ObjPath { s })
        } else {
            Err(DemarshalError::InvalidString)
        }
    }
}

impl<'a> Marshal for ObjPath<'a> {
    open spec fn m_wf(&self) -> bool {
        object_path_ok(self.s.spec_bytes()) && self.s.spec_bytes().len() < 134217728
    }

    open spec fn m_sig(&self) -> Seq<u8> {
        seq![CH_O]
    }

    open spec fn m_align(&self) -> int {
        4
    }

    open spec fn m_payload(&self, pos: int) -> Seq<u8> {
        spec_u32_to_le_bytes(self.s.spec_bytes().len() as u32) + self.s.spec_bytes() + seq![0u8]
    }

    open spec fn m_exact(&self, pos: int) -> bool {
        true
    }

    proof fn m_basics(&self) {
        assert(sig_single_len(seq![CH_O], 0, 0) == Some(1int));
    }

    proof fn m_props(&self, pos: int) {
        lemma_auto_spec_u32_to_from_le_bytes();
        let b = self.s.spec_bytes();
        let p = self.m_payload(pos);
        assert(p.subrange(0, 4) =~= spec_u32_to_le_bytes(b.len() as u32));
    }

    fn signature(&self) -> (r: Vec<u8>) {
        let mut r: Vec<u8> = Vec::new();
        r.push(CH_O);
        proof {
            assert(r@ =~= seq![CH_O]);
        }
        r
    }

    fn append_data_to(&self, v: &mut Vec<u8>) {
        align_buf(v, 4);
        push_u32_le(v, self.s.len() as u32);
        push_bytes(v, self.s.as_bytes());
        v.push(0);
        proof {
            assert(v@ =~= old(v)@ + zeros(pad_len(old(v)@.len() as int, 4)) + self.m_payload(
                align_up_spec(old(v)@.len() as int, 4),
            ));
        }
    }
}

/// A borrowed type signature marshalled as a `g` value; a single signature
/// is marshalled the same way as a multi of one element.
#[derive(Clone, Copy)]
pub struct SigBytes<'a> {
    /// The signature bytes.
    pub b: &'a [u8],
}

impl<'a> SigBytes<'a> {
    /// Wraps `b` after checking that it is a well-formed multi signature.
    pub fn new(b: &'a [u8]) -> (r: Result<SigBytes<'a>, DemarshalError>)
        ensures
            match r {
                Ok(x) => x.b@ == b@ && valid_multi(b@),
                Err(e) => e == DemarshalError::InvalidString && !valid_multi(b@),
            },
    {
        if check_multi(b) {
            Ok(SigBytes { b })
        } else {
            Err(DemarshalError::InvalidString)
        }
    }
}

impl<'a> Marshal for SigBytes<'a> {
    open spec fn m_wf(&self) -> bool {
        valid_multi(self.b@)
    }

    open spec fn m_sig(&self) -> Seq<u8> {
        seq![CH_G]
    }

    open spec fn m_align(&self) -> int {
        1
    }

    open spec fn m_payload(&self, pos: int) -> Seq<u8> {
        seq![self.b@.len() as u8] + self.b@ + seq![0u8]
    }

    open spec fn m_exact(&self, pos: int) -> bool {
        true
    }

    proof fn m_basics(&self) {
        assert(sig_single_len(seq![CH_G], 0, 0) == Some(1int));
    }

    proof fn m_props(&self, pos: int) {
        let p = self.m_payload(pos);
        assert(p[0] == self.b@.len() as u8);
    }

    fn signature(&self) -> (r: Vec<u8>) {
        let mut r: Vec<u8> = Vec::new();
        r.push(CH_G);
        proof {
            assert(r@ =~= seq![CH_G]);
        }
        r
    }

    fn append_data_to(&self, v: &mut Vec<u8>) {
        align_buf(v, 1);
        v.push(self.b.len() as u8);
        push_bytes(v, self.b);
        v.push(0);
        proof {
            assert(v@ =~= old(v)@ + zeros(pad_len(old(v)@.len() as int, 1)) + self.m_payload(
                align_up_spec(old(v)@.len() as int, 1),
            ));
        }
    }
}

/// An appendable buffer for an array of same-typed elements; the body is
/// capped at 64 MiB.
#[derive(Clone)]
pub struct ArrayBuf {
    /// The outer signature `a` + element signature.
    pub outer_sig: Vec<u8>,
    /// The concatenated element bytes, inter-element alignment included.
    pub data: Vec<u8>,
}

impl ArrayBuf {
    /// A well-formed array buffer.
    pub open spec fn wf(self) -> bool {
        &&& valid_single(self.outer_sig@)
        &&& self.outer_sig@.len() >= 2
        &&& self.outer_sig@[0] == CH_A
        &&& self.data@.len() <= ARRAY_MAX_LEN
    }

    /// The element signature, after the leading `a`.
    pub open spec fn inner_sig(self) -> Seq<u8> {
        self.outer_sig@.skip(1)
    }

    /// An empty array buffer for elements of signature `sig`. Fails with
    /// `InvalidString` when `a` + `sig` is not a well-formed single (for
    /// example when the array nesting limit is exceeded).
    pub fn new(sig: &[u8]) -> (r: Result<ArrayBuf, DemarshalError>)
        ensures
            match r {
                Ok(b) => {
                    &&& valid_single(seq![CH_A] + sig@)
                    &&& b.outer_sig@ == seq![CH_A] + sig@
                    &&& b.data@.len() == 0
                    &&& b.wf()
                },
                Err(e) => e == DemarshalError::InvalidString && !valid_single(seq![CH_A] + sig@),
            },
    {
        let mut x: Vec<u8> = Vec::new();
        x.push(CH_A);
        push_bytes(&mut x, sig);
        proof {
            assert(x@ =~= seq![CH_A] + sig@);
        }
        if check_single(x.as_slice()) {
            proof {
                lemma_single_len_bounds(x@, 0, 0);
                if x@.len() < 2 {
                    assert(x@.skip(1).len() == 0);
                    assert(sig_single_len(x@.skip(1), 1, 0) is None);
                    assert(sig_single_len(x@, 0, 0) is None);
                    assert(false);
                }
            }
            Ok(ArrayBuf { outer_sig: x, data: Vec::new() })
        } else {
            Err(DemarshalError::InvalidString)
        }
    }

    /// Truncates back to `old_len` and reports `NumberTooBig` when the
    /// body has outgrown the cap.
    fn verify_array_size(&mut self, old_len: usize) -> (r: Result<(), DemarshalError>)
        requires
            old_len <= old(self).data@.len(),
        ensures
            final(self).outer_sig@ == old(self).outer_sig@,
            match r {
                Ok(()) => final(self).data@ == old(self).data@ && final(self).data@.len()
                    <= ARRAY_MAX_LEN,
                Err(e) => {
                    &&& e == DemarshalError::NumberTooBig
                    &&& old(self).data@.len() > ARRAY_MAX_LEN
                    &&& final(self).data@ == old(self).data@.take(old_len as int)
                },
            },
    {
        if self.data.len() > ARRAY_MAX_LEN {
            self.data.truncate(old_len);
            Err(DemarshalError::NumberTooBig)
        } else {
            Ok(())
        }
    }

    /// Appends one element. Fails with `WrongType` when the value's
    /// signature is not the element signature, and with `NumberTooBig`
    /// when the body would exceed 64 MiB; either failure leaves the buffer
    /// byte-for-byte unchanged.
    pub fn append<T: Marshal + ?Sized>(&mut self, value: &T) -> (r: Result<(), DemarshalError>)
        requires
            old(self).wf(),
            value.m_wf(),
        ensures
            final(self).wf(),
            final(self).outer_sig@ == old(self).outer_sig@,
            match r {
                Ok(()) => {
                    &&& value.m_sig() == old(self).inner_sig()
                    &&& final(self).data@ == old(self).data@ + zeros(
                        pad_len(old(self).data@.len() as int, value.m_align()),
                    ) + value.m_payload(
                        align_up_spec(old(self).data@.len() as int, value.m_align()),
                    )
                },
                Err(e) => ({
                    let grown = old(self).data@ + zeros(
                        pad_len(old(self).data@.len() as int, value.m_align()),
                    ) + value.m_payload(
                        align_up_spec(old(self).data@.len() as int, value.m_align()),
                    );
                    &&& final(self).data@ == old(self).data@
                    &&& (e == DemarshalError::WrongType || e == DemarshalError::NumberTooBig)
                    &&& (e == DemarshalError::WrongType <==> value.m_sig() != old(
                        self,
                    ).inner_sig())
                    &&& (e == DemarshalError::NumberTooBig ==> grown.len() > ARRAY_MAX_LEN)
                }),
            },
    {
        proof {
            value.m_basics();
        }
        let vsig = value.signature();
        let inner = vstd::slice::slice_subrange(
            self.outer_sig.as_slice(),
            1,
            self.outer_sig.len(),
        );
        proof {
            assert(inner@ =~= self.outer_sig@.skip(1));
        }
        if !bytes_eq(vsig.as_slice(), inner) {
            return Err(DemarshalError::WrongType);
        }
        let old_len = self.data.len();
        value.append_data_to(&mut self.data);
        match self.verify_array_size(old_len) {
            Ok(()) => Ok(()),
            Err(e) => {
                proof {
                    assert((old(self).data@ + zeros(
                        pad_len(old(self).data@.len() as int, value.m_align()),
                    ) + value.m_payload(
                        align_up_spec(old(self).data@.len() as int, value.m_align()),
                    )).take(old_len as int) =~= old(self).data@);
                }
                Err(e)
            },
        }
    }

    /// Builds an array buffer from a vector of elements of signature
    /// `sig`, checking each element's signature and the size cap at the
    /// end.
    pub fn from_iter<T: Marshal>(sig: &[u8], items: &Vec<T>) -> (r: Result<
        ArrayBuf,
        DemarshalError,
    >)
        requires
            forall|i: int| 0 <= i < items@.len() ==> (#[trigger] items@[i]).m_wf(),
        ensures
            match r {
                Ok(b) => {
                    &&& valid_single(seq![CH_A] + sig@)
                    &&& b.outer_sig@ == seq![CH_A] + sig@
                    &&& (forall|i: int|
                        0 <= i < items@.len() ==> (#[trigger] items@[i]).m_sig() == sig@)
                    &&& b.data@ == elems_payload(items@, 0, Seq::empty())
                    &&& b.wf()
                },
                Err(e) => {
                    &&& (e == DemarshalError::InvalidString || e == DemarshalError::WrongType
                        || e == DemarshalError::NumberTooBig)
                    &&& (e == DemarshalError::InvalidString ==> !valid_single(seq![CH_A] + sig@))
                    &&& (e == DemarshalError::WrongType ==> exists|i: int|
                        0 <= i < items@.len() && (#[trigger] items@[i]).m_sig() != sig@)
                    &&& (e == DemarshalError::NumberTooBig ==> elems_payload(
                        items@,
                        0,
                        Seq::empty(),
                    ).len() > ARRAY_MAX_LEN)
                },
            },
    {
        let mut r = match ArrayBuf::new(sig) {
            Ok(r) => r,
            Err(e) => {
                return Err(e);
            },
        };
        let mut i: usize = 0;
        while i < items.len()
            invariant
                i <= items@.len(),
                forall|j: int| 0 <= j < items@.len() ==> (#[trigger] items@[j]).m_wf(),
                forall|j: int| 0 <= j < i ==> (#[trigger] items@[j]).m_sig() == sig@,
                elems_payload(items@, i as int, r.data@) == elems_payload(
                    items@,
                    0,
                    Seq::empty(),
                ),
                r.outer_sig@ == seq![CH_A] + sig@,
                valid_single(seq![CH_A] + sig@),
            decreases items@.len() - i,
        {
            let x = &items[i];
            proof {
                x.m_basics();
            }
            let xsig = x.signature();
            if !bytes_eq(xsig.as_slice(), sig) {
                return Err(DemarshalError::WrongType);
            }
            x.append_data_to(&mut r.data);
            i = i + 1;
        }
        match r.verify_array_size(0) {
            Ok(()) => Ok(r),
            Err(e) => Err(e),
        }
    }
}

/// The bytes of `items[i..]` appended one after another onto `acc`, each
/// with its leading alignment padding.
pub open spec fn elems_payload<T: Marshal>(items: Seq<T>, i: int, acc: Seq<u8>) -> Seq<u8>
    decreases items.len() - i,
{
    if i < 0 || i >= items.len() {
        acc
    } else {
        elems_payload(
            items,
            i + 1,
            acc + zeros(pad_len(acc.len() as int, items[i].m_align())) + items[i].m_payload(
                align_up_spec(acc.len() as int, items[i].m_align()),
            ),
        )
    }
}

impl Marshal for ArrayBuf {
    open spec fn m_wf(&self) -> bool {
        self.wf()
    }

    open spec fn m_sig(&self) -> Seq<u8> {
        self.outer_sig@
    }

    open spec fn m_align(&self) -> int {
        4
    }

    open spec fn m_payload(&self, pos: int) -> Seq<u8> {
        spec_u32_to_le_bytes(self.data@.len() as u32) + zeros(
            pad_len(pos + 4, align_of_spec(self.outer_sig@[1])),
        ) + self.data@
    }

    open spec fn m_exact(&self, pos: int) -> bool {
        pad_len(pos + 4, align_of_spec(self.outer_sig@[1])) == 0
    }

    proof fn m_basics(&self) {
    }

    proof fn m_props(&self, pos: int) {
        if self.m_exact(pos) {
            lemma_auto_spec_u32_to_from_le_bytes();
            let p = self.m_payload(pos);
            assert(p =~= spec_u32_to_le_bytes(self.data@.len() as u32) + self.data@);
            assert(p.subrange(0, 4) =~= spec_u32_to_le_bytes(self.data@.len() as u32));
        }
    }

    fn signature(&self) -> (r: Vec<u8>) {
        let mut r: Vec<u8> = Vec::new();
        push_bytes(&mut r, self.outer_sig.as_slice());
        r
    }

    fn append_data_to(&self, v: &mut Vec<u8>) {
        let ghost pos = align_up_spec(old(v)@.len() as int, 4);
        proof {
            lemma_align_up(old(v)@.len() as int, 4);
        }
        align_buf(v, 4);
        proof {
            assert(v@.len() == pos);
        }
        push_u32_le(v, self.data.len() as u32);
        proof {
            lemma_auto_spec_u32_to_from_le_bytes();
            assert(v@.len() == pos + 4);
            if self.outer_sig@[1] != CH_LBRACE {
                lemma_array_inner_char(self.outer_sig@);
            }
        }
        let ia = align_of(self.outer_sig[1]);
        align_buf(v, ia);
        push_bytes(v, self.data.as_slice());
        proof {
            let z4 = zeros(pad_len(old(v)@.len() as int, 4));
            let le = spec_u32_to_le_bytes(self.data@.len() as u32);
            let zi = zeros(pad_len(pos + 4, align_of_spec(self.outer_sig@[1])));
            assert(v@ == old(v)@ + z4 + le + zi + self.data@);
            assert(self.m_payload(pos) == le + zi + self.data@);
            assert(old(v)@ + z4 + (le + zi + self.data@) =~= old(v)@ + z4 + le + zi
                + self.data@);
        }
    }
}

/// The byte after the `a` of a well-formed array signature is a signature
/// element character (so its alignment is defined).
proof fn lemma_array_inner_char(s: Seq<u8>)
    requires
        valid_single(s),
        s.len() >= 2,
        s[0] == CH_A,
        s[1] != CH_LBRACE,
    ensures
        crate::sig::is_sig_elem_char(s[1]),
{
    crate::sig::lemma_array_inner(s);
}

/// An appendable buffer for a dictionary: entries are key-value pairs,
/// each aligned to 8 within the body, which is capped at 64 MiB.
#[derive(Clone)]
pub struct DictBuf {
    /// Signature of every key.
    pub key_sig: Vec<u8>,
    /// Signature of every value.
    pub value_sig: Vec<u8>,
    /// The outer `a{KV}` signature.
    pub outer_sig: Vec<u8>,
    /// The concatenated entry bytes.
    pub data: Vec<u8>,
}

impl DictBuf {
    /// A well-formed dict buffer.
    pub open spec fn wf(self) -> bool {
        &&& valid_single(self.outer_sig@)
        &&& self.outer_sig@ == seq![CH_A, CH_LBRACE] + self.key_sig@ + self.value_sig@ + seq![
            CH_RBRACE,
        ]
        &&& self.data@.len() <= ARRAY_MAX_LEN
    }

    /// An empty dict buffer for the given key and value signatures. Fails
    /// with `InvalidString` when `a{` + key + value + `}` is not a
    /// well-formed single (a non-basic key, several types in one part, or
    /// exceeded nesting).
    pub fn new(key_sig: Vec<u8>, value_sig: Vec<u8>) -> (r: Result<DictBuf, DemarshalError>)
        ensures
            match r {
                Ok(b) => {
                    &&& valid_single(
                        seq![CH_A, CH_LBRACE] + key_sig@ + value_sig@ + seq![CH_RBRACE],
                    )
                    &&& b.key_sig@ == key_sig@
                    &&& b.value_sig@ == value_sig@
                    &&& b.data@.len() == 0
                    &&& b.wf()
                },
                Err(e) => e == DemarshalError::InvalidString && !valid_single(
                    seq![CH_A, CH_LBRACE] + key_sig@ + value_sig@ + seq![CH_RBRACE],
                ),
            },
    {
        let mut x: Vec<u8> = Vec::new();
        x.push(CH_A);
        x.push(CH_LBRACE);
        push_bytes(&mut x, key_sig.as_slice());
        push_bytes(&mut x, value_sig.as_slice());
        x.push(CH_RBRACE);
        proof {
            assert(x@ =~= seq![CH_A, CH_LBRACE] + key_sig@ + value_sig@ + seq![CH_RBRACE]);
        }
        if check_single(x.as_slice()) {
            Ok(DictBuf { key_sig, value_sig, outer_sig: x, data: Vec::new() })
        } else {
            Err(DemarshalError::InvalidString)
        }
    }

    /// Appends one entry: pads to 8, writes the key, then the value.
    /// Fails with `WrongType` on a signature mismatch and `NumberTooBig`
    /// past the cap; either failure leaves the buffer unchanged.
    pub fn append<K: Marshal + ?Sized, V: Marshal + ?Sized>(&mut self, key: &K, value: &V) -> (r:
        Result<(), DemarshalError>)
        requires
            old(self).wf(),
            key.m_wf(),
            value.m_wf(),
        ensures
            final(self).wf(),
            final(self).outer_sig@ == old(self).outer_sig@,
            final(self).key_sig@ == old(self).key_sig@,
            final(self).value_sig@ == old(self).value_sig@,
            match r {
                Ok(()) => {
                    let d1 = old(self).data@ + zeros(pad_len(old(self).data@.len() as int, 8));
                    let d2 = d1 + zeros(pad_len(d1.len() as int, key.m_align()))
                        + key.m_payload(align_up_spec(d1.len() as int, key.m_align()));
                    &&& key.m_sig() == old(self).key_sig@
                    &&& value.m_sig() == old(self).value_sig@
                    &&& final(self).data@ == d2 + zeros(
                        pad_len(d2.len() as int, value.m_align()),
                    ) + value.m_payload(align_up_spec(d2.len() as int, value.m_align()))
                },
                Err(e) => ({
                    let d1 = old(self).data@ + zeros(pad_len(old(self).data@.len() as int, 8));
                    let d2 = d1 + zeros(pad_len(d1.len() as int, key.m_align()))
                        + key.m_payload(align_up_spec(d1.len() as int, key.m_align()));
                    let d3 = d2 + zeros(pad_len(d2.len() as int, value.m_align()))
                        + value.m_payload(align_up_spec(d2.len() as int, value.m_align()));
                    &&& final(self).data@ == old(self).data@
                    &&& (e == DemarshalError::WrongType || e == DemarshalError::NumberTooBig)
                    &&& (e == DemarshalError::WrongType <==> (value.m_sig() != old(
                        self,
                    ).value_sig@ || key.m_sig() != old(self).key_sig@))
                    &&& (e == DemarshalError::NumberTooBig ==> d3.len() > ARRAY_MAX_LEN)
                }),
            },
    {
        proof {
            key.m_basics();
            value.m_basics();
        }
        let vsig = value.signature();
        if !bytes_eq(vsig.as_slice(), self.value_sig.as_slice()) {
            return Err(DemarshalError::WrongType);
        }
        let ksig = key.signature();
        if !bytes_eq(ksig.as_slice(), self.key_sig.as_slice()) {
            return Err(DemarshalError::WrongType);
        }
        let old_len = self.data.len();
        align_buf(&mut self.data, 8);
        key.append_data_to(&mut self.data);
        value.append_data_to(&mut self.data);
        if self.data.len() > ARRAY_MAX_LEN {
            let ghost grown = self.data@;
            self.data.truncate(old_len);
            proof {
                assert(grown.take(old_len as int) =~= old(self).data@);
            }
            Err(DemarshalError::NumberTooBig)
        } else {
            Ok(())
        }
    }
}

impl Marshal for DictBuf {
    open spec fn m_wf(&self) -> bool {
        self.wf()
    }

    open spec fn m_sig(&self) -> Seq<u8> {
        self.outer_sig@
    }

    open spec fn m_align(&self) -> int {
        4
    }

    open spec fn m_payload(&self, pos: int) -> Seq<u8> {
        spec_u32_to_le_bytes(self.data@.len() as u32) + zeros(pad_len(pos + 4, 8)) + self.data@
    }

    open spec fn m_exact(&self, pos: int) -> bool {
        pad_len(pos + 4, 8) == 0
    }

    proof fn m_basics(&self) {
    }

    proof fn m_props(&self, pos: int) {
        if self.m_exact(pos) {
            lemma_auto_spec_u32_to_from_le_bytes();
            let p = self.m_payload(pos);
            assert(p =~= spec_u32_to_le_bytes(self.data@.len() as u32) + self.data@);
            assert(p.subrange(0, 4) =~= spec_u32_to_le_bytes(self.data@.len() as u32));
        }
    }

    fn signature(&self) -> (r: Vec<u8>) {
        let mut r: Vec<u8> = Vec::new();
        push_bytes(&mut r, self.outer_sig.as_slice());
        r
    }

    fn append_data_to(&self, v: &mut Vec<u8>) {
        let ghost pos = align_up_spec(old(v)@.len() as int, 4);
        proof {
            lemma_align_up(old(v)@.len() as int, 4);
        }
        align_buf(v, 4);
        proof {
            assert(v@.len() == pos);
        }
        push_u32_le(v, self.data.len() as u32);
        proof {
            lemma_auto_spec_u32_to_from_le_bytes();
            assert(v@.len() == pos + 4);
        }
        align_buf(v, 8);
        push_bytes(v, self.data.as_slice());
        proof {
            let z4 = zeros(pad_len(old(v)@.len() as int, 4));
            let le = spec_u32_to_le_bytes(self.data@.len() as u32);
            let zi = zeros(pad_len(pos + 4, 8));
            assert(v@ == old(v)@ + z4 + le + zi + self.data@);
            assert(self.m_payload(pos) == le + zi + self.data@);
            assert(old(v)@ + z4 + (le + zi + self.data@) =~= old(v)@ + z4 + le + zi
                + self.data@);
        }
    }
}

/// A buffer for one struct value: a [`MultiBuf`] wrapped in parentheses
/// and aligned to 8.
#[derive(Clone)]
pub struct StructBuf {
    /// The struct's field values.
    pub inner: MultiBuf,
    /// The outer `(...)` signature.
    pub outer_sig: Vec<u8>,
}

impl StructBuf {
    /// A well-formed struct buffer.
    pub open spec fn wf(self) -> bool {
        &&& valid_single(self.outer_sig@)
        &&& self.outer_sig@ == seq![CH_LPAREN] + self.inner.sig@ + seq![CH_RPAREN]
        &&& self.inner.wf()
    }

    /// Wraps a multi-buffer as one struct value. Fails with
    /// `InvalidString` when `(` + signature + `)` is not a well-formed
    /// single, in particular for an empty struct.
    pub fn new(inner: MultiBuf) -> (r: Result<StructBuf, DemarshalError>)
        requires
            inner.wf(),
        ensures
            match r {
                Ok(b) => {
                    &&& valid_single(seq![CH_LPAREN] + inner.sig@ + seq![CH_RPAREN])
                    &&& b.inner == inner
                    &&& b.outer_sig@ == seq![CH_LPAREN] + inner.sig@ + seq![CH_RPAREN]
                    &&& b.wf()
                },
                Err(e) => e == DemarshalError::InvalidString && !valid_single(
                    seq![CH_LPAREN] + inner.sig@ + seq![CH_RPAREN],
                ),
            },
    {
        let mut x: Vec<u8> = Vec::new();
        x.push(CH_LPAREN);
        push_bytes(&mut x, inner.sig.as_slice());
        x.push(CH_RPAREN);
        proof {
            assert(x@ =~= seq![CH_LPAREN] + inner.sig@ + seq![CH_RPAREN]);
        }
        if check_single(x.as_slice()) {
            Ok(StructBuf { inner, outer_sig: x })
        } else {
            Err(DemarshalError::InvalidString)
        }
    }
}

impl Marshal for StructBuf {
    open spec fn m_wf(&self) -> bool {
        self.wf()
    }

    open spec fn m_sig(&self) -> Seq<u8> {
        self.outer_sig@
    }

    open spec fn m_align(&self) -> int {
        8
    }

    open spec fn m_payload(&self, pos: int) -> Seq<u8> {
        self.inner.data@
    }

    open spec fn m_exact(&self, pos: int) -> bool {
        self.inner.measured()
    }

    proof fn m_basics(&self) {
    }

    proof fn m_props(&self, pos: int) {
        if self.m_exact(pos) {
            assert(self.outer_sig@.subrange(1, self.outer_sig@.len() - 1) =~= self.inner.sig@);
        }
    }

    fn signature(&self) -> (r: Vec<u8>) {
        let mut r: Vec<u8> = Vec::new();
        push_bytes(&mut r, self.outer_sig.as_slice());
        r
    }

    fn append_data_to(&self, v: &mut Vec<u8>) {
        align_buf(v, 8);
        push_bytes(v, self.inner.data.as_slice());
    }
}

/// A buffer for one variant value: an inner signature written as a `g`
/// value, followed by the inner value's aligned bytes.
#[derive(Clone)]
pub struct VariantBuf {
    /// The signature of the wrapped value.
    pub sig: Vec<u8>,
    /// The wrapped value's bytes, marshalled from position 0.
    pub data: Vec<u8>,
}

impl VariantBuf {
    /// A well-formed variant buffer.
    pub open spec fn wf(self) -> bool {
        valid_single(self.sig@)
    }

    /// Wraps one marshallable value.
    pub fn new<T: Marshal + ?Sized>(value: &T) -> (r: Result<VariantBuf, DemarshalError>)
        requires
            value.m_wf(),
        ensures
            match r {
                Ok(b) => {
                    &&& b.sig@ == value.m_sig()
                    &&& b.data@ == value.m_payload(0)
                    &&& b.wf()
                    &&& value.m_exact(0) ==> single_real_len(b.sig@, b.data@, 0, false) == Ok::<
                        int,
                        DemarshalError,
                    >(b.data@.len() as int)
                },
                Err(_) => false,
            },
    {
        proof {
            value.m_basics();
        }
        let mut data: Vec<u8> = Vec::new();
        value.append_data_to(&mut data);
        proof {
            let al = value.m_align();
            lemma_align_up(0int, al);
            assert(zeros(pad_len(0int, al)).len() == 0);
            assert(data@ =~= value.m_payload(0));
            value.m_props(0);
        }
        Ok(VariantBuf { sig: value.signature(), data })
    }
}

impl Marshal for VariantBuf {
    open spec fn m_wf(&self) -> bool {
        self.wf()
    }

    open spec fn m_sig(&self) -> Seq<u8> {
        seq![CH_V]
    }

    open spec fn m_align(&self) -> int {
        1
    }

    open spec fn m_payload(&self, pos: int) -> Seq<u8> {
        seq![self.sig@.len() as u8] + self.sig@ + seq![0u8] + zeros(
            pad_len(pos + self.sig@.len() + 2, align_of_spec(self.sig@[0])),
        ) + self.data@
    }

    open spec fn m_exact(&self, pos: int) -> bool {
        single_real_len(
            self.sig@,
            self.data@,
            align_up_spec(pos + self.sig@.len() + 2, align_of_spec(self.sig@[0])),
            false,
        ) == Ok::<int, DemarshalError>(self.data@.len() as int)
    }

    proof fn m_basics(&self) {
        assert(sig_single_len(seq![CH_V], 0, 0) == Some(1int));
    }

    proof fn m_props(&self, pos: int) {
        if self.m_exact(pos) {
            let p = self.m_payload(pos);
            let sl = self.sig@.len() as int;
            let a = align_of_spec(self.sig@[0]);
            lemma_align_up(pos + sl + 2, a);
            assert(p[0] == self.sig@.len() as u8);
            assert(p[0] as int == sl);
            assert(p.subrange(1, sl + 1) =~= self.sig@);
            let ds = align_up_spec(pos + sl + 2, a) - pos;
            assert(p.len() == ds + self.data@.len());
            assert(p.skip(ds) =~= self.data@);
        }
    }

    fn signature(&self) -> (r: Vec<u8>) {
        let mut r: Vec<u8> = Vec::new();
        r.push(CH_V);
        proof {
            assert(r@ =~= seq![CH_V]);
        }
        r
    }

    fn append_data_to(&self, v: &mut Vec<u8>) {
        align_buf(v, 1);
        v.push(self.sig.len() as u8);
        push_bytes(v, self.sig.as_slice());
        v.push(0);
        proof {
            lemma_single_len_bounds(self.sig@, 0, 0);
            crate::sig::lemma_single_first_char(self.sig@, 0, 0);
        }
        let ia = align_of(self.sig[0]);
        align_buf(v, ia);
        push_bytes(v, self.data.as_slice());
        proof {
            assert(v@ =~= old(v)@ + zeros(pad_len(old(v)@.len() as int, 1)) + self.m_payload(
                align_up_spec(old(v)@.len() as int, 1),
            ));
        }
    }
}

} // verus!


