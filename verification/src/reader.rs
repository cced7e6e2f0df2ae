//! Borrowed cursor views that decode D-Bus wire data: a multi-reader over a
//! sequence of values, a single-reader over one value, and the array and
//! dict views produced by decoding containers.
//!
//! Padding is computed over absolute positions within the message body, so
//! every single-reader carries the absolute offset of its first byte.

use crate::error::DemarshalError;
use crate::sig::{
    align_of, align_of_spec, align_up, align_up_spec, check_multi, check_single, is_basic_char,
    lemma_align_up, lemma_array_inner, lemma_dict_inner, lemma_multi_concat, lemma_multi_split,
    lemma_single_first_char, lemma_single_is_multi, lemma_single_len_bounds, lemma_struct_inner,
    sig_single_end, sig_single_len, valid_multi, valid_single, CH_A, CH_B, CH_D, CH_G, CH_H,
    CH_I, CH_LBRACE, CH_LPAREN, CH_N, CH_O, CH_Q, CH_S, CH_T, CH_U, CH_V, CH_X, CH_Y,
};
use crate::strings::{dbus_str_check, dbus_str_ok, object_path_check, object_path_ok, try_utf8};
use crate::wire::{read_u16, read_u16_spec, read_u32, read_u32_spec, read_u64, read_u64_spec};
use vstd::prelude::*;
use vstd::string::StringSliceAdditionalSpecFns;
use vstd::utf8::valid_utf8;

verus! {

/// Largest allowed byte length of an array body: 64 MiB.
pub const ARRAY_MAX_LEN: usize = 67108864;

/// Number of zero bytes needed to move from `pos` to alignment `a`.
pub open spec fn pad_len(pos: int, a: int) -> int {
    align_up_spec(pos, a) - pos
}

/// Unaligned byte span of the single value with signature `sig` at the
/// start of `d`, whose first byte sits at absolute position `pos`. Spans
/// are checked against the window as they are computed, so a success never
/// exceeds `d.len()`.
pub open spec fn single_real_len(sig: Seq<u8>, d: Seq<u8>, pos: int, be: bool) -> Result<
    int,
    DemarshalError,
>
    decreases d.len(), sig.len(), 0int,
{
    if sig.len() == 0 {
        Err(DemarshalError::NotEnoughData)
    } else {
        let c = sig[0];
        if c == CH_Y {
            if d.len() >= 1 {
                Ok(1)
            } else {
                Err(DemarshalError::NotEnoughData)
            }
        } else if c == CH_N || c == CH_Q {
            if d.len() >= 2 {
                Ok(2)
            } else {
                Err(DemarshalError::NotEnoughData)
            }
        } else if c == CH_I || c == CH_U || c == CH_B || c == CH_H {
            if d.len() >= 4 {
                Ok(4)
            } else {
                Err(DemarshalError::NotEnoughData)
            }
        } else if c == CH_X || c == CH_T || c == CH_D {
            if d.len() >= 8 {
                Ok(8)
            } else {
                Err(DemarshalError::NotEnoughData)
            }
        } else if c == CH_S || c == CH_O {
            if d.len() < 4 {
                Err(DemarshalError::NotEnoughData)
            } else {
                let x = read_u32_spec(d, be) as int;
                if x + 5 <= d.len() {
                    Ok(x + 5)
                } else {
                    Err(DemarshalError::NotEnoughData)
                }
            }
        } else if c == CH_G {
            if d.len() < 1 {
                Err(DemarshalError::NotEnoughData)
            } else {
                let x = d[0] as int;
                if x + 2 <= d.len() {
                    Ok(x + 2)
                } else {
                    Err(DemarshalError::NotEnoughData)
                }
            }
        } else if c == CH_A {
            if d.len() < 4 {
                Err(DemarshalError::NotEnoughData)
            } else {
                let x = read_u32_spec(d, be) as int;
                if x > ARRAY_MAX_LEN {
                    Err(DemarshalError::NumberTooBig)
                } else if x + 4 <= d.len() {
                    Ok(x + 4)
                } else {
                    Err(DemarshalError::NotEnoughData)
                }
            }
        } else if c == CH_V {
            if d.len() < 1 {
                Err(DemarshalError::NotEnoughData)
            } else {
                let sl = d[0] as int;
                if sl + 1 > d.len() {
                    Err(DemarshalError::NotEnoughData)
                } else {
                    let sb = d.subrange(1, sl + 1);
                    if !valid_single(sb) {
                        Err(DemarshalError::InvalidString)
                    } else {
                        let ds = align_up_spec(pos + sl + 2, align_of_spec(sb[0])) - pos;
                        if ds > d.len() {
                            Err(DemarshalError::NotEnoughData)
                        } else {
                            match single_real_len(sb, d.skip(ds), pos + ds, be) {
                                Ok(n) => Ok(ds + n),
                                Err(e) => Err(e),
                            }
                        }
                    }
                }
            }
        } else if c == CH_LPAREN {
            if sig.len() < 2 {
                Err(DemarshalError::NotEnoughData)
            } else {
                multi_real_len(sig.subrange(1, sig.len() - 1), d, 0, be)
            }
        } else {
            Err(DemarshalError::NotEnoughData)
        }
    }
}

/// Length of one iteration step over a multi signature: the span of the
/// first single, rounded up to the alignment of the following element when
/// one follows. `sig` must begin with a parseable single.
pub open spec fn step_len(sig: Seq<u8>, d: Seq<u8>, pos: int, be: bool) -> Result<
    int,
    DemarshalError,
>
    decreases d.len(), sig.len(), 1int,
{
    let l = sig_single_len(sig, 0, 0)->0;
    if !(sig_single_len(sig, 0, 0) is Some && 0 < l <= sig.len()) {
        Err(DemarshalError::NotEnoughData)
    } else {
        match single_real_len(sig.take(l), d, pos, be) {
            Ok(n) => {
                if l == sig.len() {
                    Ok(n)
                } else {
                    let m = n + pad_len(pos + n, align_of_spec(sig[l]));
                    if m <= d.len() {
                        Ok(m)
                    } else {
                        Err(DemarshalError::NotEnoughData)
                    }
                }
            },
            Err(e) => Err(e),
        }
    }
}

/// Total byte span of the sequence of values described by the multi
/// signature `sig`, laid out at the start of `d` with the first byte at
/// absolute position `pos`.
pub open spec fn multi_real_len(sig: Seq<u8>, d: Seq<u8>, pos: int, be: bool) -> Result<
    int,
    DemarshalError,
>
    decreases d.len(), sig.len(), 2int,
{
    if sig.len() == 0 {
        Ok(0)
    } else {
        match sig_single_len(sig, 0, 0) {
            Some(l) => {
                if 0 < l <= sig.len() {
                    match step_len(sig, d, pos, be) {
                        Ok(m) => {
                            if l == sig.len() {
                                Ok(m)
                            } else {
                                if 0 <= m <= d.len() {
                                    match multi_real_len(sig.skip(l), d.skip(m), pos + m, be) {
                                        Ok(k) => Ok(m + k),
                                        Err(e) => Err(e),
                                    }
                                } else {
                                    Err(DemarshalError::NotEnoughData)
                                }
                            }
                        },
                        Err(e) => Err(e),
                    }
                } else {
                    Err(DemarshalError::NotEnoughData)
                }
            },
            None => Err(DemarshalError::NotEnoughData),
        }
    }
}

/// A successful span never exceeds the data window.
pub proof fn lemma_single_real_len_bound(sig: Seq<u8>, d: Seq<u8>, pos: int, be: bool)
    ensures
        single_real_len(sig, d, pos, be) is Ok ==> 0 <= single_real_len(sig, d, pos, be)->Ok_0
            <= d.len(),
    decreases d.len(), sig.len(), 0int,
{
    if sig.len() == 0 {
    } else {
        let c = sig[0];
        if c == CH_V {
            if d.len() >= 1 {
                let sl = d[0] as int;
                if sl + 1 <= d.len() {
                    let sb = d.subrange(1, sl + 1);
                    if valid_single(sb) {
                        let ds = align_up_spec(pos + sl + 2, align_of_spec(sb[0])) - pos;
                        if ds <= d.len() {
                            lemma_single_real_len_bound(sb, d.skip(ds), pos + ds, be);
                        }
                    }
                }
            }
        } else if c == CH_LPAREN {
            if sig.len() >= 2 {
                lemma_multi_real_len_bound(sig.subrange(1, sig.len() - 1), d, 0, be);
            }
        }
    }
}

/// A successful multi span never exceeds the data window.
pub proof fn lemma_multi_real_len_bound(sig: Seq<u8>, d: Seq<u8>, pos: int, be: bool)
    ensures
        multi_real_len(sig, d, pos, be) is Ok ==> 0 <= multi_real_len(sig, d, pos, be)->Ok_0
            <= d.len(),
    decreases d.len(), sig.len(), 1int,
{
    if sig.len() == 0 {
    } else {
        match sig_single_len(sig, 0, 0) {
            Some(l) => {
                if 0 < l <= sig.len() {
                    lemma_single_real_len_bound(sig.take(l), d, pos, be);
                    match step_len(sig, d, pos, be) {
                        Ok(m) => {
                            if l == sig.len() {
                            } else {
                                if 0 <= m <= d.len() {
                                    lemma_multi_real_len_bound(sig.skip(l), d.skip(m), pos + m, be);
                                }
                            }
                        },
                        Err(_) => {},
                    }
                }
            },
            None => {},
        }
    }
}

/// Shifts a successful length by `off`, passing errors through.
pub open spec fn shift_len_res(r: Result<int, DemarshalError>, off: int) -> Result<
    int,
    DemarshalError,
> {
    match r {
        Ok(k) => Ok(off + k),
        Err(e) => Err(e),
    }
}

/// True when the exec outcome `r` matches the specification outcome `g`.
pub open spec fn usize_res_matches(r: Result<usize, DemarshalError>, g: Result<
    int,
    DemarshalError,
>) -> bool {
    match r {
        Ok(n) => g == Ok::<int, DemarshalError>(n as int),
        Err(e) => g == Err::<int, DemarshalError>(e),
    }
}

/// A borrowed view over a sequence of values: a multi signature, the bytes
/// that hold the values, and the endianness they were written in.
/// Positions inside are relative to the start of `data`, which the caller
/// must have sliced at a position aligned for every element inside.
#[derive(Clone, Copy)]
pub struct Multi<'a> {
    /// The multi signature describing the values.
    pub sig: &'a [u8],
    /// The bytes holding the values.
    pub data: &'a [u8],
    /// Whether multi-byte scalars are big-endian.
    pub is_big_endian: bool,
}

/// Iterates over the values of a [`Multi`], yielding one single-reader per
/// element of the signature.
#[derive(Clone, Copy)]
pub struct MultiIter<'a> {
    /// The remaining values.
    pub inner: Multi<'a>,
    /// Absolute position of the first remaining byte.
    pub start_pos: usize,
}

/// A borrowed view over exactly one value.
#[derive(Clone, Copy)]
pub struct Single<'a> {
    /// The single signature of the value.
    pub sig: &'a [u8],
    /// The bytes holding the value (possibly with trailing padding).
    pub data: &'a [u8],
    /// Absolute position of `data[0]` within the message body.
    pub start_pos: usize,
    /// Whether multi-byte scalars are big-endian.
    pub is_big_endian: bool,
}

impl<'a> Multi<'a> {
    /// A well-formed multi-reader: its signature is a valid multi and its
    /// window leaves room for alignment arithmetic.
    pub open spec fn wf(self) -> bool {
        valid_multi(self.sig@) && self.data@.len() + 8 <= usize::MAX
    }

    /// A multi-reader over `data`, which holds values described by `sig`.
    pub fn new(sig: &'a [u8], data: &'a [u8], is_big_endian: bool) -> (r: Multi<'a>)
        requires
            valid_multi(sig@),
            data@.len() + 8 <= usize::MAX,
        ensures
            r == (Multi { sig, data, is_big_endian }),
            r.wf(),
    {
        Multi { sig, data, is_big_endian }
    }

    /// An iterator over the values, starting at relative position 0.
    pub fn iter(&self) -> (r: MultiIter<'a>)
        requires
            self.wf(),
        ensures
            r.inner == *self,
            r.start_pos == 0,
            r.wf(),
    {
        MultiIter { inner: *self, start_pos: 0 }
    }

    /// Number of bytes that the values of this reader span, from the start
    /// of `data` through the last element, inter-element padding included.
    pub fn get_real_length(&self) -> (r: Result<usize, DemarshalError>)
        requires
            self.wf(),
        ensures
            usize_res_matches(r, multi_real_len(self.sig@, self.data@, 0, self.is_big_endian)),
        decreases self.data@.len(), self.sig@.len(), 2int,
    {
        let ghost gsig = self.sig@;
        let ghost gdata = self.data@;
        let be = self.is_big_endian;
        let mut sig_rem: &'a [u8] = self.sig;
        let mut data_rem: &'a [u8] = self.data;
        let mut sp: usize = 0;
        loop
            invariant
                valid_multi(sig_rem@),
                sp + data_rem@.len() + 8 <= usize::MAX,
                sig_rem@.len() <= gsig.len(),
                data_rem@.len() <= gdata.len(),
                multi_real_len(gsig, gdata, 0, be) == shift_len_res(
                    multi_real_len(sig_rem@, data_rem@, sp as int, be),
                    sp as int,
                ),
                gsig == self.sig@,
                gdata == self.data@,
                be == self.is_big_endian,
            decreases sig_rem@.len(),
        {
            if sig_rem.len() == 0 {
                return Ok(sp);
            }
            let ghost osig = sig_rem@;
            let ghost odata = data_rem@;
            let ghost osp = sp as int;
            proof {
                lemma_multi_split(sig_rem@);
            }
            let l = match sig_single_end(sig_rem, 0, 0) {
                Some(l) => l,
                None => {
                    proof {
                        assert(false);
                    }
                    return Err(DemarshalError::NotEnoughData);
                },
            };
            let first = vstd::slice::slice_subrange(sig_rem, 0, l);
            let rest = vstd::slice::slice_subrange(sig_rem, l, sig_rem.len());
            proof {
                assert(first@ =~= sig_rem@.take(l as int));
                assert(rest@ =~= sig_rem@.skip(l as int));
            }
            let s = Single { sig: first, data: data_rem, start_pos: sp, is_big_endian: be };
            let n = match s.get_real_length() {
                Ok(n) => n,
                Err(e) => {
                    proof {
                        assert(step_len(osig, odata, osp, be) == Err::<int, DemarshalError>(e));
                        assert(multi_real_len(osig, odata, osp, be) == Err::<int, DemarshalError>(
                            e,
                        ));
                    }
                    return Err(e);
                },
            };
            proof {
                lemma_single_real_len_bound(first@, data_rem@, sp as int, be);
                assert(single_real_len(osig.take(l as int), odata, osp, be) == Ok::<
                    int,
                    DemarshalError,
                >(n as int));
            }
            let m: usize;
            if rest.len() > 0 {
                proof {
                    lemma_multi_split(rest@);
                    lemma_align_up(sp + n, align_of_spec(rest@[0]));
                    assert(osig[l as int] == rest@[0]);
                }
                let a = align_of(rest[0]);
                let mm = align_up(sp + n, a) - sp;
                proof {
                    assert(mm as int == n + pad_len(osp + n, align_of_spec(osig[l as int])));
                }
                if mm > data_rem.len() {
                    proof {
                        assert(step_len(osig, odata, osp, be) == Err::<int, DemarshalError>(
                            DemarshalError::NotEnoughData,
                        ));
                        assert(multi_real_len(osig, odata, osp, be) == Err::<int, DemarshalError>(
                            DemarshalError::NotEnoughData,
                        ));
                    }
                    return Err(DemarshalError::NotEnoughData);
                }
                m = mm;
                proof {
                    assert(step_len(osig, odata, osp, be) == Ok::<int, DemarshalError>(m as int));
                }
            } else {
                m = n;
                proof {
                    assert(l as int == osig.len());
                    assert(step_len(osig, odata, osp, be) == Ok::<int, DemarshalError>(m as int));
                }
            }
            let new_data = vstd::slice::slice_subrange(data_rem, m, data_rem.len());
            proof {
                assert(new_data@ =~= data_rem@.skip(m as int));
            }
            sig_rem = rest;
            data_rem = new_data;
            sp = sp + m;
            proof {
                if osig.len() == l as int {
                    assert(sig_rem@.len() == 0);
                    assert(multi_real_len(osig, odata, osp, be) == Ok::<int, DemarshalError>(
                        m as int,
                    ));
                    assert(multi_real_len(sig_rem@, data_rem@, sp as int, be) == Ok::<
                        int,
                        DemarshalError,
                    >(0));
                } else {
                    assert(multi_real_len(osig, odata, osp, be) == shift_len_res(
                        multi_real_len(sig_rem@, data_rem@, sp as int, be),
                        m as int,
                    ));
                }
            }
        }
    }
}

impl<'a> Single<'a> {
    /// A well-formed single-reader: its signature is a valid single and its
    /// absolute window leaves room for alignment arithmetic.
    pub open spec fn wf(self) -> bool {
        valid_single(self.sig@) && self.start_pos + self.data@.len() + 8 <= usize::MAX
    }

    /// A single-reader over `data` holding one value of signature `sig`
    /// whose first byte sits at absolute position `start_pos`.
    pub fn new(sig: &'a [u8], data: &'a [u8], start_pos: usize, is_big_endian: bool) -> (r:
        Single<'a>)
        requires
            valid_single(sig@),
            start_pos + data@.len() + 8 <= usize::MAX,
        ensures
            r == (Single { sig, data, start_pos, is_big_endian }),
            r.wf(),
    {
        Single { sig, data, start_pos, is_big_endian }
    }

    /// Unaligned byte span of this value, by signature head.
    pub fn get_real_length(&self) -> (r: Result<usize, DemarshalError>)
        requires
            self.wf(),
        ensures
            usize_res_matches(
                r,
                single_real_len(self.sig@, self.data@, self.start_pos as int, self.is_big_endian),
            ),
        decreases self.data@.len(), self.sig@.len(), 0int,
    {
        proof {
            lemma_single_len_bounds(self.sig@, 0, 0);
        }
        let c = self.sig[0];
        let dlen = self.data.len();
        if c == CH_Y {
            if dlen >= 1 {
                Ok(1)
            } else {
                Err(DemarshalError::NotEnoughData)
            }
        } else if c == CH_N || c == CH_Q {
            if dlen >= 2 {
                Ok(2)
            } else {
                Err(DemarshalError::NotEnoughData)
            }
        } else if c == CH_I || c == CH_U || c == CH_B || c == CH_H {
            if dlen >= 4 {
                Ok(4)
            } else {
                Err(DemarshalError::NotEnoughData)
            }
        } else if c == CH_X || c == CH_T || c == CH_D {
            if dlen >= 8 {
                Ok(8)
            } else {
                Err(DemarshalError::NotEnoughData)
            }
        } else if c == CH_S || c == CH_O {
            if dlen < 4 {
                Err(DemarshalError::NotEnoughData)
            } else {
                let x = read_u32(self.data, self.is_big_endian);
                if (x as u64) + 5 <= dlen as u64 {
                    Ok(x as usize + 5)
                } else {
                    Err(DemarshalError::NotEnoughData)
                }
            }
        } else if c == CH_G {
            if dlen < 1 {
                Err(DemarshalError::NotEnoughData)
            } else {
                let x = self.data[0];
                if (x as u64) + 2 <= dlen as u64 {
                    Ok(x as usize + 2)
                } else {
                    Err(DemarshalError::NotEnoughData)
                }
            }
        } else if c == CH_A {
            if dlen < 4 {
                Err(DemarshalError::NotEnoughData)
            } else {
                let x = read_u32(self.data, self.is_big_endian);
                if x as usize > ARRAY_MAX_LEN {
                    Err(DemarshalError::NumberTooBig)
                } else if (x as u64) + 4 <= dlen as u64 {
                    Ok(x as usize + 4)
                } else {
                    Err(DemarshalError::NotEnoughData)
                }
            }
        } else if c == CH_V {
            if dlen < 1 {
                return Err(DemarshalError::NotEnoughData);
            }
            let sl = self.data[0] as usize;
            if sl + 1 > dlen {
                return Err(DemarshalError::NotEnoughData);
            }
            let sb = vstd::slice::slice_subrange(self.data, 1, sl + 1);
            proof {
                assert(sb@ =~= self.data@.subrange(1, sl + 1));
            }
            if !check_single(sb) {
                return Err(DemarshalError::InvalidString);
            }
            proof {
                lemma_single_len_bounds(sb@, 0, 0);
                lemma_single_first_char(sb@, 0, 0);
                lemma_align_up(self.start_pos + sl + 2, align_of_spec(sb@[0]));
            }
            let a = align_of(sb[0]);
            let ds = align_up(self.start_pos + sl + 2, a) - self.start_pos;
            if ds > dlen {
                return Err(DemarshalError::NotEnoughData);
            }
            let tail = vstd::slice::slice_subrange(self.data, ds, dlen);
            proof {
                assert(tail@ =~= self.data@.skip(ds as int));
            }
            let inner = Single {
                sig: sb,
                data: tail,
                start_pos: self.start_pos + ds,
                is_big_endian: self.is_big_endian,
            };
            match inner.get_real_length() {
                Ok(n) => {
                    proof {
                        lemma_single_real_len_bound(
                            sb@,
                            tail@,
                            self.start_pos + ds as int,
                            self.is_big_endian,
                        );
                    }
                    Ok(ds + n)
                },
                Err(e) => Err(e),
            }
        } else if c == CH_LPAREN {
            proof {
                lemma_struct_inner(self.sig@);
            }
            let inner_sig = vstd::slice::slice_subrange(self.sig, 1, self.sig.len() - 1);
            proof {
                assert(inner_sig@ =~= self.sig@.subrange(1, self.sig@.len() - 1));
            }
            let m = Multi { sig: inner_sig, data: self.data, is_big_endian: self.is_big_endian };
            m.get_real_length()
        } else {
            proof {
                lemma_single_first_char(self.sig@, 0, 0);
                assert(false);
            }
            Err(DemarshalError::NotEnoughData)
        }
    }
}

impl<'a> MultiIter<'a> {
    /// A well-formed iterator over a well-formed multi-reader.
    pub open spec fn wf(self) -> bool {
        valid_multi(self.inner.sig@) && self.start_pos + self.inner.data@.len() + 8 <= usize::MAX
    }

    /// The next value of the sequence, as a single-reader whose window is
    /// cut to the value's aligned span, or `None` when the signature is
    /// exhausted. On an error the iterator is left unchanged.
    pub fn next(&mut self) -> (r: Option<Result<Single<'a>, DemarshalError>>)
        requires
            old(self).wf(),
        ensures
            final(self).wf(),
            final(self).inner.is_big_endian == old(self).inner.is_big_endian,
            old(self).inner.sig@.len() == 0 ==> r is None && *final(self) == *old(self),
            old(self).inner.sig@.len() > 0 ==> {
                let sig0 = old(self).inner.sig@;
                let d0 = old(self).inner.data@;
                let p0 = old(self).start_pos as int;
                let be = old(self).inner.is_big_endian;
                let l = sig_single_len(sig0, 0, 0)->0;
                &&& r is Some
                &&& match step_len(sig0, d0, p0, be) {
                    Ok(m) => {
                        &&& r->0 is Ok
                        &&& (r->0)->Ok_0.sig@ == sig0.take(l)
                        &&& (r->0)->Ok_0.data@ == d0.take(m)
                        &&& (r->0)->Ok_0.start_pos == p0
                        &&& (r->0)->Ok_0.is_big_endian == be
                        &&& (r->0)->Ok_0.wf()
                        &&& final(self).inner.sig@ == sig0.skip(l)
                        &&& final(self).inner.data@ == d0.skip(m)
                        &&& final(self).start_pos == p0 + m
                        &&& l < sig0.len() ==> (p0 + m) % align_of_spec(sig0[l]) == 0
                    },
                    Err(e) => {
                        &&& r->0 == Err::<Single<'a>, DemarshalError>(e)
                        &&& *final(self) == *old(self)
                    },
                }
            },
    {
        if self.inner.sig.len() == 0 {
            return None;
        }
        proof {
            lemma_multi_split(self.inner.sig@);
        }
        let l = match sig_single_end(self.inner.sig, 0, 0) {
            Some(l) => l,
            None => {
                proof {
                    assert(false);
                }
                return Some(Err(DemarshalError::NotEnoughData));
            },
        };
        let first = vstd::slice::slice_subrange(self.inner.sig, 0, l);
        let rest = vstd::slice::slice_subrange(self.inner.sig, l, self.inner.sig.len());
        proof {
            assert(first@ =~= self.inner.sig@.take(l as int));
            assert(rest@ =~= self.inner.sig@.skip(l as int));
        }
        let s = Single {
            sig: first,
            data: self.inner.data,
            start_pos: self.start_pos,
            is_big_endian: self.inner.is_big_endian,
        };
        let n = match s.get_real_length() {
            Ok(n) => n,
            Err(e) => {
                return Some(Err(e));
            },
        };
        proof {
            lemma_single_real_len_bound(
                first@,
                self.inner.data@,
                self.start_pos as int,
                self.inner.is_big_endian,
            );
        }
        let m: usize;
        if rest.len() > 0 {
            proof {
                lemma_multi_split(rest@);
                lemma_align_up(self.start_pos + n, align_of_spec(rest@[0]));
            }
            let a = align_of(rest[0]);
            let mm = align_up(self.start_pos + n, a) - self.start_pos;
            if mm > self.inner.data.len() {
                return Some(Err(DemarshalError::NotEnoughData));
            }
            m = mm;
        } else {
            m = n;
        }
        let fdata = vstd::slice::slice_subrange(self.inner.data, 0, m);
        let rdata = vstd::slice::slice_subrange(self.inner.data, m, self.inner.data.len());
        proof {
            assert(fdata@ =~= self.inner.data@.take(m as int));
            assert(rdata@ =~= self.inner.data@.skip(m as int));
        }
        let out = Single {
            sig: first,
            data: fdata,
            start_pos: self.start_pos,
            is_big_endian: self.inner.is_big_endian,
        };
        self.inner = Multi {
            sig: rest,
            data: rdata,
            is_big_endian: self.inner.is_big_endian,
        };
        self.start_pos = self.start_pos + m;
        Some(Ok(out))
    }
}

/// The logical value denoted by one decoded element, over mathematical
/// views of the wire data: scalars by value, string-like payloads as their
/// UTF-8 bytes, and container views by their signature, window and
/// absolute position.
pub enum SpecValue {
    /// An array view: element signature, payload window, absolute start.
    Arr { inner_sig: Seq<u8>, data: Seq<u8>, pos: int },
    /// A dict view: outer and element signatures and the payload window.
    Dct { outer_sig: Seq<u8>, key_sig: Seq<u8>, value_sig: Seq<u8>, data: Seq<u8> },
    /// A struct view: inner multi signature over the same window.
    Strct { inner_sig: Seq<u8>, data: Seq<u8> },
    /// A variant view: inner signature, window and absolute start.
    Var { sig: Seq<u8>, data: Seq<u8>, pos: int },
    /// An object path, as its UTF-8 bytes.
    Path(Seq<u8>),
    /// A signature value, as its UTF-8 bytes.
    Sig(Seq<u8>),
    /// A string, as its UTF-8 bytes.
    Str(Seq<u8>),
    /// A boolean.
    Boolean(bool),
    /// An unsigned 8 bit value.
    Byte(u8),
    /// A signed 16 bit value.
    Int16(i16),
    /// A signed 32 bit value.
    Int32(i32),
    /// A signed 64 bit value.
    Int64(i64),
    /// An unsigned 16 bit value.
    UInt16(u16),
    /// An unsigned 32 bit value.
    UInt32(u32),
    /// An unsigned 64 bit value.
    UInt64(u64),
    /// A double, as its IEEE 754 bit pattern.
    DoubleBits(u64),
    /// A file descriptor index.
    UnixFd(int),
}

/// Decoding the variant header at the start of `d`: the inner signature
/// bytes and the offset of the inner value's first byte within `d`.
pub open spec fn variant_inner_spec(d: Seq<u8>, pos: int) -> Result<
    (Seq<u8>, int),
    DemarshalError,
> {
    if d.len() < 1 {
        Err(DemarshalError::NotEnoughData)
    } else {
        let sl = d[0] as int;
        if sl + 1 > d.len() {
            Err(DemarshalError::NotEnoughData)
        } else {
            let sb = d.subrange(1, sl + 1);
            if !valid_single(sb) {
                Err(DemarshalError::InvalidString)
            } else {
                let ds = align_up_spec(pos + sl + 2, align_of_spec(sb[0])) - pos;
                if ds > d.len() {
                    Err(DemarshalError::NotEnoughData)
                } else {
                    Ok((sb, ds))
                }
            }
        }
    }
}

/// What decoding one value with signature `sig` from `d` at absolute
/// position `pos` yields, or the error it fails with.
pub open spec fn spec_parse(sig: Seq<u8>, d: Seq<u8>, pos: int, be: bool) -> Result<
    SpecValue,
    DemarshalError,
> {
    if sig.len() == 0 {
        Err(DemarshalError::NotEnoughData)
    } else {
        let c = sig[0];
        if c == CH_Y {
            if d.len() >= 1 {
                Ok(SpecValue::Byte(d[0]))
            } else {
                Err(DemarshalError::NotEnoughData)
            }
        } else if c == CH_N {
            if d.len() >= 2 {
                Ok(SpecValue::Int16(read_u16_spec(d, be) as i16))
            } else {
                Err(DemarshalError::NotEnoughData)
            }
        } else if c == CH_Q {
            if d.len() >= 2 {
                Ok(SpecValue::UInt16(read_u16_spec(d, be)))
            } else {
                Err(DemarshalError::NotEnoughData)
            }
        } else if c == CH_I {
            if d.len() >= 4 {
                Ok(SpecValue::Int32(read_u32_spec(d, be) as i32))
            } else {
                Err(DemarshalError::NotEnoughData)
            }
        } else if c == CH_U {
            if d.len() >= 4 {
                Ok(SpecValue::UInt32(read_u32_spec(d, be)))
            } else {
                Err(DemarshalError::NotEnoughData)
            }
        } else if c == CH_B {
            if d.len() >= 4 {
                let x = read_u32_spec(d, be);
                if x == 0 {
                    Ok(SpecValue::Boolean(false))
                } else if x == 1 {
                    Ok(SpecValue::Boolean(true))
                } else {
                    Err(DemarshalError::InvalidBoolean)
                }
            } else {
                Err(DemarshalError::NotEnoughData)
            }
        } else if c == CH_H {
            if d.len() >= 4 {
                Ok(SpecValue::UnixFd(read_u32_spec(d, be) as int))
            } else {
                Err(DemarshalError::NotEnoughData)
            }
        } else if c == CH_X {
            if d.len() >= 8 {
                Ok(SpecValue::Int64(read_u64_spec(d, be) as i64))
            } else {
                Err(DemarshalError::NotEnoughData)
            }
        } else if c == CH_T {
            if d.len() >= 8 {
                Ok(SpecValue::UInt64(read_u64_spec(d, be)))
            } else {
                Err(DemarshalError::NotEnoughData)
            }
        } else if c == CH_D {
            if d.len() >= 8 {
                Ok(SpecValue::DoubleBits(read_u64_spec(d, be)))
            } else {
                Err(DemarshalError::NotEnoughData)
            }
        } else if c == CH_G {
            if d.len() < 1 {
                Err(DemarshalError::NotEnoughData)
            } else {
                let sl = d[0] as int;
                if sl + 1 > d.len() {
                    Err(DemarshalError::NotEnoughData)
                } else {
                    let sb = d.subrange(1, sl + 1);
                    if valid_utf8(sb) && valid_multi(sb) {
                        Ok(SpecValue::Sig(sb))
                    } else {
                        Err(DemarshalError::InvalidString)
                    }
                }
            }
        } else if c == CH_S || c == CH_O {
            if d.len() < 4 {
                Err(DemarshalError::NotEnoughData)
            } else {
                let x = read_u32_spec(d, be) as int;
                if x + 4 > d.len() {
                    Err(DemarshalError::NotEnoughData)
                } else {
                    let pb = d.subrange(4, 4 + x);
                    if c == CH_S {
                        if valid_utf8(pb) && dbus_str_ok(pb) {
                            Ok(SpecValue::Str(pb))
                        } else {
                            Err(DemarshalError::InvalidString)
                        }
                    } else {
                        if valid_utf8(pb) && object_path_ok(pb) {
                            Ok(SpecValue::Path(pb))
                        } else {
                            Err(DemarshalError::InvalidString)
                        }
                    }
                }
            }
        } else if c == CH_V {
            match variant_inner_spec(d, pos) {
                Ok((sb, ds)) => Ok(SpecValue::Var { sig: sb, data: d.skip(ds), pos: pos + ds }),
                Err(e) => Err(e),
            }
        } else if c == CH_LPAREN {
            if sig.len() < 2 {
                Err(DemarshalError::NotEnoughData)
            } else {
                Ok(SpecValue::Strct { inner_sig: sig.subrange(1, sig.len() - 1), data: d })
            }
        } else if c == CH_A {
            if d.len() < 4 {
                Err(DemarshalError::NotEnoughData)
            } else {
                let x = read_u32_spec(d, be) as int;
                if x > ARRAY_MAX_LEN {
                    Err(DemarshalError::NumberTooBig)
                } else if sig.len() < 2 {
                    Err(DemarshalError::NotEnoughData)
                } else if sig[1] == CH_LBRACE {
                    let ds = align_up_spec(pos + 4, 8) - pos;
                    if ds + x > d.len() {
                        Err(DemarshalError::NotEnoughData)
                    } else {
                        Ok(
                            SpecValue::Dct {
                                outer_sig: sig,
                                key_sig: sig.subrange(2, 3),
                                value_sig: sig.subrange(3, sig.len() - 1),
                                data: d.subrange(ds, ds + x),
                            },
                        )
                    }
                } else {
                    let ds = align_up_spec(pos + 4, align_of_spec(sig[1])) - pos;
                    if ds + x > d.len() {
                        Err(DemarshalError::NotEnoughData)
                    } else {
                        Ok(
                            SpecValue::Arr {
                                inner_sig: sig.skip(1),
                                data: d.subrange(ds, ds + x),
                                pos: pos + ds,
                            },
                        )
                    }
                }
            }
        } else {
            Err(DemarshalError::NotEnoughData)
        }
    }
}

/// A borrowed view over an array body: every element shares one single
/// signature.
#[derive(Clone, Copy)]
pub struct Array<'a> {
    /// Signature of each element.
    pub inner_sig: &'a [u8],
    /// The remaining array payload.
    pub data: &'a [u8],
    /// Absolute position of `data[0]`.
    pub start_pos: usize,
    /// Whether multi-byte scalars are big-endian.
    pub is_big_endian: bool,
}

/// A borrowed view over a dict body: every entry is a key-value pair,
/// aligned to 8 within the payload.
#[derive(Clone, Copy)]
pub struct Dict<'a> {
    /// The whole `a{KV}` signature.
    pub outer_sig: &'a [u8],
    /// Signature of each key (a basic type).
    pub key_sig: &'a [u8],
    /// Signature of each value.
    pub value_sig: &'a [u8],
    /// The remaining dict payload.
    pub data: &'a [u8],
    /// Whether multi-byte scalars are big-endian.
    pub is_big_endian: bool,
}

/// One decoded value. The enum may grow further variants as the format
/// gains basic types.
#[non_exhaustive]
#[derive(Clone)]
pub enum Parsed<'a> {
    /// An array of values of one type.
    Array(Array<'a>),
    /// A dictionary with keys of one basic type and values of one type.
    Dict(Dict<'a>),
    /// A struct: a sequence of values of differing types.
    Struct(Multi<'a>),
    /// A variant: a value wrapped together with its own signature.
    Variant(Single<'a>),
    /// An object path.
    ObjectPath(&'a str),
    /// A type signature.
    Signature(&'a str),
    /// A string.
    String(&'a str),
    /// A boolean.
    Boolean(bool),
    /// An unsigned 8 bit value.
    Byte(u8),
    /// A signed 16 bit value.
    Int16(i16),
    /// A signed 32 bit value.
    Int32(i32),
    /// A signed 64 bit value.
    Int64(i64),
    /// An unsigned 16 bit value.
    UInt16(u16),
    /// An unsigned 32 bit value.
    UInt32(u32),
    /// An unsigned 64 bit value.
    UInt64(u64),
    /// A double precision float, carried as its IEEE 754 bit pattern so
    /// that the codec itself stays within integer arithmetic.
    Double(u64),
    /// An index into the out-of-band file descriptor table.
    UnixFd(usize),
}

impl<'a> Array<'a> {
    /// A well-formed array view.
    pub open spec fn wf(self) -> bool {
        valid_single(self.inner_sig@) && self.start_pos + self.data@.len() + 8 <= usize::MAX
    }
}

impl<'a> Dict<'a> {
    /// A well-formed dict view: both element signatures are valid, the key
    /// is basic, and together they are the interior of the outer signature.
    pub open spec fn wf(self) -> bool {
        &&& valid_single(self.key_sig@)
        &&& is_basic_char(self.key_sig@[0])
        &&& self.key_sig@.len() == 1
        &&& valid_single(self.value_sig@)
        &&& valid_multi(self.kv_sig())
        &&& self.outer_sig@.len() >= 4
        &&& self.outer_sig@.subrange(2, self.outer_sig@.len() - 1) == self.kv_sig()
        &&& self.data@.len() + 8 <= usize::MAX
    }

    /// The two-element signature `KV` of one dict entry.
    pub open spec fn kv_sig(self) -> Seq<u8> {
        self.key_sig@ + self.value_sig@
    }
}

/// The logical value of a decoded [`Parsed`].
pub open spec fn parsed_view(p: Parsed) -> SpecValue {
    match p {
        Parsed::Array(a) => SpecValue::Arr {
            inner_sig: a.inner_sig@,
            data: a.data@,
            pos: a.start_pos as int,
        },
        Parsed::Dict(dv) => SpecValue::Dct {
            outer_sig: dv.outer_sig@,
            key_sig: dv.key_sig@,
            value_sig: dv.value_sig@,
            data: dv.data@,
        },
        Parsed::Struct(m) => SpecValue::Strct { inner_sig: m.sig@, data: m.data@ },
        Parsed::Variant(s) => SpecValue::Var {
            sig: s.sig@,
            data: s.data@,
            pos: s.start_pos as int,
        },
        Parsed::ObjectPath(s) => SpecValue::Path(s.spec_bytes()),
        Parsed::Signature(s) => SpecValue::Sig(s.spec_bytes()),
        Parsed::String(s) => SpecValue::Str(s.spec_bytes()),
        Parsed::Boolean(b) => SpecValue::Boolean(b),
        Parsed::Byte(x) => SpecValue::Byte(x),
        Parsed::Int16(x) => SpecValue::Int16(x),
        Parsed::Int32(x) => SpecValue::Int32(x),
        Parsed::Int64(x) => SpecValue::Int64(x),
        Parsed::UInt16(x) => SpecValue::UInt16(x),
        Parsed::UInt32(x) => SpecValue::UInt32(x),
        Parsed::UInt64(x) => SpecValue::UInt64(x),
        Parsed::Double(x) => SpecValue::DoubleBits(x),
        Parsed::UnixFd(x) => SpecValue::UnixFd(x as int),
    }
}

/// Container results carry well-formed views that keep the endianness of
/// the reader that produced them.
pub open spec fn parsed_wf(p: Parsed, be: bool) -> bool {
    match p {
        Parsed::Array(a) => a.wf() && a.is_big_endian == be,
        Parsed::Dict(dv) => dv.wf() && dv.is_big_endian == be,
        Parsed::Struct(m) => m.wf() && m.is_big_endian == be,
        Parsed::Variant(s) => s.wf() && s.is_big_endian == be,
        _ => true,
    }
}

impl<'a> Single<'a> {
    /// The nested single-reader of a variant value: its signature read from
    /// the data, positioned after the signature and its padding.
    fn inner_variant(&self) -> (r: Result<Single<'a>, DemarshalError>)
        requires
            self.wf(),
        ensures
            match r {
                Ok(s) => {
                    &&& variant_inner_spec(self.data@, self.start_pos as int) == Ok::<
                        (Seq<u8>, int),
                        DemarshalError,
                    >((s.sig@, s.start_pos - self.start_pos))
                    &&& s.data@ == self.data@.skip(s.start_pos - self.start_pos)
                    &&& s.is_big_endian == self.is_big_endian
                    &&& s.wf()
                },
                Err(e) => variant_inner_spec(self.data@, self.start_pos as int) == Err::<
                    (Seq<u8>, int),
                    DemarshalError,
                >(e),
            },
    {
        let dlen = self.data.len();
        if dlen < 1 {
            return Err(DemarshalError::NotEnoughData);
        }
        let sl = self.data[0] as usize;
        if sl + 1 > dlen {
            return Err(DemarshalError::NotEnoughData);
        }
        let sb = vstd::slice::slice_subrange(self.data, 1, sl + 1);
        proof {
            assert(sb@ =~= self.data@.subrange(1, sl + 1));
        }
        if !check_single(sb) {
            return Err(DemarshalError::InvalidString);
        }
        proof {
            lemma_single_len_bounds(sb@, 0, 0);
            lemma_single_first_char(sb@, 0, 0);
            lemma_align_up(self.start_pos + sl + 2, align_of_spec(sb@[0]));
        }
        let a = align_of(sb[0]);
        let ds = align_up(self.start_pos + sl + 2, a) - self.start_pos;
        if ds > dlen {
            return Err(DemarshalError::NotEnoughData);
        }
        let tail = vstd::slice::slice_subrange(self.data, ds, dlen);
        proof {
            assert(tail@ =~= self.data@.skip(ds as int));
        }
        Ok(
            Single {
                sig: sb,
                data: tail,
                start_pos: self.start_pos + ds,
                is_big_endian: self.is_big_endian,
            },
        )
    }

    /// The inner multi-reader of a struct value: the parentheses are
    /// stripped from the signature and the data window is shared.
    fn inner_struct(&self) -> (r: Multi<'a>)
        requires
            self.wf(),
            self.sig@.len() > 0,
            self.sig@[0] == CH_LPAREN,
        ensures
            r.sig@ == self.sig@.subrange(1, self.sig@.len() - 1),
            r.data@ == self.data@,
            r.is_big_endian == self.is_big_endian,
            r.wf(),
    {
        proof {
            lemma_struct_inner(self.sig@);
        }
        let inner_sig = vstd::slice::slice_subrange(self.sig, 1, self.sig.len() - 1);
        proof {
            assert(inner_sig@ =~= self.sig@.subrange(1, self.sig@.len() - 1));
        }
        Multi { sig: inner_sig, data: self.data, is_big_endian: self.is_big_endian }
    }

    /// Decodes an array or dict value: reads the 4 byte body length, aligns
    /// to the element type, and hands out the payload window.
    fn parse_array(&self) -> (r: Result<Parsed<'a>, DemarshalError>)
        requires
            self.wf(),
            self.sig@.len() > 0,
            self.sig@[0] == CH_A,
        ensures
            match r {
                Ok(p) => spec_parse(self.sig@, self.data@, self.start_pos as int,
                    self.is_big_endian) == Ok::<SpecValue, DemarshalError>(parsed_view(p))
                    && parsed_wf(p, self.is_big_endian),
                Err(e) => spec_parse(self.sig@, self.data@, self.start_pos as int,
                    self.is_big_endian) == Err::<SpecValue, DemarshalError>(e),
            },
    {
        let dlen = self.data.len();
        if dlen < 4 {
            return Err(DemarshalError::NotEnoughData);
        }
        let xw = read_u32(self.data, self.is_big_endian);
        if xw as usize > ARRAY_MAX_LEN {
            return Err(DemarshalError::NumberTooBig);
        }
        let x = xw as usize;
        proof {
            if self.sig@.len() < 2 {
                assert(self.sig@.skip(1).len() == 0);
                assert(sig_single_len(self.sig@.skip(1), 1, 0) is None);
                assert(sig_single_len(self.sig@, 0, 0) is None);
                assert(false);
            }
        }
        if self.sig[1] == CH_LBRACE {
            proof {
                lemma_dict_inner(self.sig@);
                lemma_align_up(self.start_pos + 4, 8);
            }
            let ds = align_up(self.start_pos + 4, 8) - self.start_pos;
            if ds + x > dlen {
                return Err(DemarshalError::NotEnoughData);
            }
            let key = vstd::slice::slice_subrange(self.sig, 2, 3);
            let value = vstd::slice::slice_subrange(self.sig, 3, self.sig.len() - 1);
            let window = vstd::slice::slice_subrange(self.data, ds, ds + x);
            proof {
                assert(key@ =~= self.sig@.subrange(2, 3));
                assert(value@ =~= self.sig@.subrange(3, self.sig@.len() - 1));
                assert(window@ =~= self.data@.subrange(ds as int, ds + x));
                lemma_single_is_multi(key@);
                lemma_multi_concat(key@, value@);
                assert(key@ + value@ =~= self.sig@.subrange(2, self.sig@.len() - 1));
            }
            Ok(
                Parsed::Dict(
                    Dict {
                        outer_sig: self.sig,
                        key_sig: key,
                        value_sig: value,
                        data: window,
                        is_big_endian: self.is_big_endian,
                    },
                ),
            )
        } else {
            proof {
                lemma_array_inner(self.sig@);
                lemma_align_up(self.start_pos + 4, align_of_spec(self.sig@[1]));
            }
            let a = align_of(self.sig[1]);
            let ds = align_up(self.start_pos + 4, a) - self.start_pos;
            if ds + x > dlen {
                return Err(DemarshalError::NotEnoughData);
            }
            let inner = vstd::slice::slice_subrange(self.sig, 1, self.sig.len());
            let window = vstd::slice::slice_subrange(self.data, ds, ds + x);
            proof {
                assert(inner@ =~= self.sig@.skip(1));
                assert(window@ =~= self.data@.subrange(ds as int, ds + x));
            }
            Ok(
                Parsed::Array(
                    Array {
                        inner_sig: inner,
                        data: window,
                        start_pos: self.start_pos + ds,
                        is_big_endian: self.is_big_endian,
                    },
                ),
            )
        }
    }

    /// Decodes this value into a [`Parsed`], using the reader's endianness
    /// for multi-byte scalars.
    pub fn parse(&self) -> (r: Result<Parsed<'a>, DemarshalError>)
        requires
            self.wf(),
        ensures
            match r {
                Ok(p) => spec_parse(self.sig@, self.data@, self.start_pos as int,
                    self.is_big_endian) == Ok::<SpecValue, DemarshalError>(parsed_view(p))
                    && parsed_wf(p, self.is_big_endian),
                Err(e) => spec_parse(self.sig@, self.data@, self.start_pos as int,
                    self.is_big_endian) == Err::<SpecValue, DemarshalError>(e),
            },
    {
        proof {
            lemma_single_len_bounds(self.sig@, 0, 0);
        }
        let c = self.sig[0];
        let dlen = self.data.len();
        if c == CH_Y {
            if dlen >= 1 {
                Ok(Parsed::Byte(self.data[0]))
            } else {
                Err(DemarshalError::NotEnoughData)
            }
        } else if c == CH_N {
            if dlen >= 2 {
                Ok(Parsed::Int16(read_u16(self.data, self.is_big_endian) as i16))
            } else {
                Err(DemarshalError::NotEnoughData)
            }
        } else if c == CH_Q {
            if dlen >= 2 {
                Ok(Parsed::UInt16(read_u16(self.data, self.is_big_endian)))
            } else {
                Err(DemarshalError::NotEnoughData)
            }
        } else if c == CH_I {
            if dlen >= 4 {
                Ok(Parsed::Int32(read_u32(self.data, self.is_big_endian) as i32))
            } else {
                Err(DemarshalError::NotEnoughData)
            }
        } else if c == CH_U {
            if dlen >= 4 {
                Ok(Parsed::UInt32(read_u32(self.data, self.is_big_endian)))
            } else {
                Err(DemarshalError::NotEnoughData)
            }
        } else if c == CH_B {
            if dlen >= 4 {
                let x = read_u32(self.data, self.is_big_endian);
                if x == 0 {
                    Ok(Parsed::Boolean(false))
                } else if x == 1 {
                    Ok(Parsed::Boolean(true))
                } else {
                    Err(DemarshalError::InvalidBoolean)
                }
            } else {
                Err(DemarshalError::NotEnoughData)
            }
        } else if c == CH_H {
            if dlen >= 4 {
                Ok(Parsed::UnixFd(read_u32(self.data, self.is_big_endian) as usize))
            } else {
                Err(DemarshalError::NotEnoughData)
            }
        } else if c == CH_X {
            if dlen >= 8 {
                Ok(Parsed::Int64(read_u64(self.data, self.is_big_endian) as i64))
            } else {
                Err(DemarshalError::NotEnoughData)
            }
        } else if c == CH_T {
            if dlen >= 8 {
                Ok(Parsed::UInt64(read_u64(self.data, self.is_big_endian)))
            } else {
                Err(DemarshalError::NotEnoughData)
            }
        } else if c == CH_D {
            if dlen >= 8 {
                Ok(Parsed::Double(read_u64(self.data, self.is_big_endian)))
            } else {
                Err(DemarshalError::NotEnoughData)
            }
        } else if c == CH_G {
            if dlen < 1 {
                return Err(DemarshalError::NotEnoughData);
            }
            let sl = self.data[0] as usize;
            if sl + 1 > dlen {
                return Err(DemarshalError::NotEnoughData);
            }
            let sb = vstd::slice::slice_subrange(self.data, 1, sl + 1);
            proof {
                assert(sb@ =~= self.data@.subrange(1, sl + 1));
            }
            match try_utf8(sb) {
                Some(st) => {
                    if check_multi(st.as_bytes()) {
                        Ok(Parsed::Signature(st))
                    } else {
                        Err(DemarshalError::InvalidString)
                    }
                },
                None => Err(DemarshalError::InvalidString),
            }
        } else if c == CH_S || c == CH_O {
            if dlen < 4 {
                return Err(DemarshalError::NotEnoughData);
            }
            let x = read_u32(self.data, self.is_big_endian);
            if (x as u64) + 4 > dlen as u64 {
                return Err(DemarshalError::NotEnoughData);
            }
            let x = x as usize;
            let pb = vstd::slice::slice_subrange(self.data, 4, 4 + x);
            proof {
                assert(pb@ =~= self.data@.subrange(4, 4 + x));
            }
            match try_utf8(pb) {
                Some(st) => {
                    if c == CH_S {
                        if dbus_str_check(st) {
                            Ok(Parsed::String(st))
                        } else {
                            Err(DemarshalError::InvalidString)
                        }
                    } else {
                        if object_path_check(st) {
                            Ok(Parsed::ObjectPath(st))
                        } else {
                            Err(DemarshalError::InvalidString)
                        }
                    }
                },
                None => Err(DemarshalError::InvalidString),
            }
        } else if c == CH_V {
            match self.inner_variant() {
                Ok(s) => Ok(Parsed::Variant(s)),
                Err(e) => Err(e),
            }
        } else if c == CH_LPAREN {
            Ok(Parsed::Struct(self.inner_struct()))
        } else if c == CH_A {
            self.parse_array()
        } else {
            proof {
                lemma_single_first_char(self.sig@, 0, 0);
                assert(false);
            }
            Err(DemarshalError::NotEnoughData)
        }
    }
}

impl<'a> Parsed<'a> {
    /// The string payload of a string-like value, or `WrongType` for any
    /// other variant.
    pub fn as_dbus_str(&self) -> (r: Result<&'a str, DemarshalError>)
        ensures
            match self {
                Parsed::String(x) => r == Ok::<&str, DemarshalError>(*x),
                Parsed::ObjectPath(x) => r == Ok::<&str, DemarshalError>(*x),
                Parsed::Signature(x) => r == Ok::<&str, DemarshalError>(*x),
                _ => r == Err::<&str, DemarshalError>(DemarshalError::WrongType),
            },
    {
        match self {
            Parsed::String(x) => Ok(*x),
            Parsed::ObjectPath(x) => Ok(*x),
            Parsed::Signature(x) => Ok(*x),
            _ => Err(DemarshalError::WrongType),
        }
    }
}

/// One iteration step over an array body: the unaligned span of the next
/// element and the aligned advance of the cursor. Failures of any kind
/// surface as `NotEnoughData`.
pub open spec fn array_step(inner: Seq<u8>, d: Seq<u8>, pos: int, be: bool) -> Result<
    (int, int),
    DemarshalError,
> {
    match single_real_len(inner, d, pos, be) {
        Ok(n) => {
            if n < d.len() {
                let adv = n + pad_len(pos + n, align_of_spec(inner[0]));
                if adv <= d.len() {
                    Ok((n, adv))
                } else {
                    Err(DemarshalError::NotEnoughData)
                }
            } else {
                Ok((n, d.len() as int))
            }
        },
        Err(_) => Err(DemarshalError::NotEnoughData),
    }
}

impl<'a> Array<'a> {
    /// The next element of the array, or `None` when the payload is
    /// exhausted. An error is yielded once and exhausts the view, so
    /// iteration terminates after it.
    pub fn next(&mut self) -> (r: Option<Result<Single<'a>, DemarshalError>>)
        requires
            old(self).wf(),
        ensures
            final(self).wf(),
            final(self).inner_sig@ == old(self).inner_sig@,
            final(self).is_big_endian == old(self).is_big_endian,
            old(self).data@.len() == 0 ==> r is None && *final(self) == *old(self),
            old(self).data@.len() > 0 ==> {
                let inner = old(self).inner_sig@;
                let d0 = old(self).data@;
                let p0 = old(self).start_pos as int;
                let be = old(self).is_big_endian;
                &&& r is Some
                &&& match array_step(inner, d0, p0, be) {
                    Ok((n, adv)) => {
                        &&& r->0 is Ok
                        &&& (r->0)->Ok_0.sig@ == inner
                        &&& (r->0)->Ok_0.data@ == d0.take(n)
                        &&& (r->0)->Ok_0.start_pos == p0
                        &&& (r->0)->Ok_0.is_big_endian == be
                        &&& (r->0)->Ok_0.wf()
                        &&& if n < d0.len() {
                            final(self).data@ == d0.skip(adv) && final(self).start_pos == p0 + adv
                        } else {
                            final(self).data@.len() == 0 && final(self).start_pos == p0
                        }
                    },
                    Err(e) => {
                        &&& r->0 == Err::<Single<'a>, DemarshalError>(e)
                        &&& final(self).data@.len() == 0
                        &&& final(self).start_pos == old(self).start_pos
                    },
                }
            },
    {
        if self.data.len() == 0 {
            return None;
        }
        let s0 = Single {
            sig: self.inner_sig,
            data: self.data,
            start_pos: self.start_pos,
            is_big_endian: self.is_big_endian,
        };
        let n = match s0.get_real_length() {
            Ok(n) => n,
            Err(_) => {
                let empty = vstd::slice::slice_subrange(
                    self.data,
                    self.data.len(),
                    self.data.len(),
                );
                proof {
                    assert(empty@.len() == 0);
                }
                self.data = empty;
                return Some(Err(DemarshalError::NotEnoughData));
            },
        };
        proof {
            lemma_single_real_len_bound(
                self.inner_sig@,
                self.data@,
                self.start_pos as int,
                self.is_big_endian,
            );
        }
        let elem_data = vstd::slice::slice_subrange(self.data, 0, n);
        proof {
            assert(elem_data@ =~= self.data@.take(n as int));
        }
        let out = Single {
            sig: self.inner_sig,
            data: elem_data,
            start_pos: self.start_pos,
            is_big_endian: self.is_big_endian,
        };
        if n < self.data.len() {
            proof {
                lemma_single_len_bounds(self.inner_sig@, 0, 0);
                lemma_single_first_char(self.inner_sig@, 0, 0);
                lemma_align_up(self.start_pos + n, align_of_spec(self.inner_sig@[0]));
            }
            let a = align_of(self.inner_sig[0]);
            let adv = align_up(self.start_pos + n, a) - self.start_pos;
            if adv > self.data.len() {
                let empty = vstd::slice::slice_subrange(
                    self.data,
                    self.data.len(),
                    self.data.len(),
                );
                proof {
                    assert(empty@.len() == 0);
                }
                self.data = empty;
                return Some(Err(DemarshalError::NotEnoughData));
            }
            let rest = vstd::slice::slice_subrange(self.data, adv, self.data.len());
            proof {
                assert(rest@ =~= self.data@.skip(adv as int));
            }
            self.data = rest;
            self.start_pos = self.start_pos + adv;
        } else {
            let empty = vstd::slice::slice_subrange(self.data, self.data.len(), self.data.len());
            proof {
                assert(empty@ =~= self.data@.skip(self.data@.len() as int));
            }
            self.data = empty;
        }
        Some(Ok(out))
    }
}

/// One iteration step over a dict body: the length of the key signature,
/// the aligned spans of key and value, and the 8-aligned advance to the
/// next entry.
pub open spec fn dict_step(kv: Seq<u8>, d: Seq<u8>, be: bool) -> Result<
    (int, int, int, int),
    DemarshalError,
> {
    let l1 = sig_single_len(kv, 0, 0)->0;
    match step_len(kv, d, 0, be) {
        Ok(m1) => match step_len(kv.skip(l1), d.skip(m1), m1, be) {
            Ok(m2) => {
                let len = m1 + m2;
                if len < d.len() {
                    let adv = align_up_spec(len, 8);
                    if adv <= d.len() {
                        Ok((l1, m1, m2, adv))
                    } else {
                        Err(DemarshalError::NotEnoughData)
                    }
                } else {
                    Ok((l1, m1, m2, d.len() as int))
                }
            },
            Err(e) => Err(e),
        },
        Err(e) => Err(e),
    }
}

impl<'a> Dict<'a> {
    /// The next key-value pair of the dict, or `None` when the payload is
    /// exhausted. On an error the view is left unchanged.
    #[verifier::rlimit(80)]
    pub fn next(&mut self) -> (r: Option<
        Result<(Single<'a>, Single<'a>), DemarshalError>,
    >)
        requires
            old(self).wf(),
        ensures
            final(self).wf(),
            final(self).outer_sig@ == old(self).outer_sig@,
            final(self).key_sig@ == old(self).key_sig@,
            final(self).value_sig@ == old(self).value_sig@,
            final(self).is_big_endian == old(self).is_big_endian,
            old(self).data@.len() == 0 ==> r is None && *final(self) == *old(self),
            old(self).data@.len() > 0 ==> {
                let kv = old(self).kv_sig();
                let d0 = old(self).data@;
                let be = old(self).is_big_endian;
                &&& r is Some
                &&& match dict_step(kv, d0, be) {
                    Ok((l1, m1, m2, adv)) => {
                        &&& r->0 is Ok
                        &&& (r->0)->Ok_0.0.sig@ == old(self).key_sig@
                        &&& (r->0)->Ok_0.0.data@ == d0.take(m1)
                        &&& (r->0)->Ok_0.0.start_pos == 0
                        &&& (r->0)->Ok_0.0.is_big_endian == be
                        &&& (r->0)->Ok_0.0.wf()
                        &&& (r->0)->Ok_0.1.sig@ == old(self).value_sig@
                        &&& (r->0)->Ok_0.1.data@ == d0.skip(m1).take(m2)
                        &&& (r->0)->Ok_0.1.start_pos == m1
                        &&& (r->0)->Ok_0.1.is_big_endian == be
                        &&& (r->0)->Ok_0.1.wf()
                        &&& if m1 + m2 < d0.len() {
                            final(self).data@ == d0.skip(adv)
                        } else {
                            final(self).data@.len() == 0
                        }
                    },
                    Err(e) => {
                        &&& r->0 == Err::<(Single<'a>, Single<'a>), DemarshalError>(e)
                        &&& *final(self) == *old(self)
                    },
                }
            },
    {
        if self.data.len() == 0 {
            return None;
        }
        let kv = vstd::slice::slice_subrange(self.outer_sig, 2, self.outer_sig.len() - 1);
        proof {
            assert(kv@ =~= self.outer_sig@.subrange(2, self.outer_sig@.len() - 1));
            assert(kv@ == self.kv_sig());
        }
        let mut mi = MultiIter {
            inner: Multi { sig: kv, data: self.data, is_big_endian: self.is_big_endian },
            start_pos: 0,
        };
        proof {
            assert(sig_single_len(kv@, 0, 0) == Some(1int));
            assert(kv@.take(1) =~= self.key_sig@);
            assert(kv@.skip(1) =~= self.value_sig@);
            lemma_single_len_bounds(self.value_sig@, 0, 0);
            assert(self.value_sig@.take(self.value_sig@.len() as int) =~= self.value_sig@);
        }
        let ghost d0 = self.data@;
        let ghost be = self.is_big_endian;
        let ghost kvg = self.kv_sig();
        let k_res = mi.next();
        let v_res = mi.next();
        match (k_res, v_res) {
            (Some(Ok(k)), Some(Ok(v))) => {
                proof {
                    let m1 = step_len(kvg, d0, 0, be)->Ok_0;
                    lemma_single_real_len_bound(self.key_sig@, d0, 0, be);
                    lemma_align_up(
                        single_real_len(self.key_sig@, d0, 0, be)->Ok_0,
                        align_of_spec(self.value_sig@[0]),
                    );
                    assert(0 <= m1 <= d0.len());
                    let m2 = step_len(self.value_sig@, d0.skip(m1), m1, be)->Ok_0;
                    lemma_single_real_len_bound(self.value_sig@, d0.skip(m1), m1, be);
                    assert(0 <= m2 <= d0.skip(m1).len());
                    assert(mi.inner.data@ == d0.skip(m1).skip(m2));
                    assert(d0.skip(m1).skip(m2) =~= d0.skip(m1 + m2));
                    assert(mi.inner.data@.len() == d0.len() - m1 - m2);
                }
                let len = self.data.len() - mi.inner.data.len();
                if len < self.data.len() {
                    proof {
                        lemma_align_up(len as int, 8);
                    }
                    let adv = align_up(len, 8);
                    if adv > self.data.len() {
                        return Some(Err(DemarshalError::NotEnoughData));
                    }
                    let rest = vstd::slice::slice_subrange(self.data, adv, self.data.len());
                    proof {
                        assert(rest@ =~= self.data@.skip(adv as int));
                    }
                    self.data = rest;
                } else {
                    let empty = vstd::slice::slice_subrange(
                        self.data,
                        self.data.len(),
                        self.data.len(),
                    );
                    proof {
                        assert(empty@ =~= self.data@.skip(self.data@.len() as int));
                    }
                    self.data = empty;
                }
                Some(Ok((k, v)))
            },
            (Some(Err(k)), Some(_)) => Some(Err(k)),
            (Some(_), Some(Err(v))) => Some(Err(v)),
            _ => Some(Err(DemarshalError::NotEnoughData)),
        }
    }
}

} // verus!

