//! D-Bus type signatures: the character alphabet, element alignment, and the
//! grammar of single and multi signatures.
//!
//! A *single* signature denotes exactly one value (`"u"`, `"a{sv}"`, `"(ss)"`);
//! a *multi* signature is a concatenation of zero or more singles (`"ua{sv}"`).
//! Array and struct nesting are each limited to a depth of 32, and a signature
//! is at most 255 bytes long.

use vstd::prelude::*;

verus! {


/// Signature character constants (ASCII codes).
pub const CH_Y: u8 = 121;

pub const CH_B: u8 = 98;

pub const CH_N: u8 = 110;

pub const CH_Q: u8 = 113;

pub const CH_I: u8 = 105;

pub const CH_U: u8 = 117;

pub const CH_X: u8 = 120;

pub const CH_T: u8 = 116;

pub const CH_D: u8 = 100;

pub const CH_H: u8 = 104;

pub const CH_S: u8 = 115;

pub const CH_O: u8 = 111;

pub const CH_G: u8 = 103;

pub const CH_V: u8 = 118;

pub const CH_A: u8 = 97;

pub const CH_LPAREN: u8 = 40;

pub const CH_RPAREN: u8 = 41;

pub const CH_LBRACE: u8 = 123;

pub const CH_RBRACE: u8 = 125;

/// Maximum byte length of a type signature.
pub const SIG_MAX_LEN: usize = 255;

/// True of the characters that denote a basic (non-container) type.
pub open spec fn is_basic_char(c: u8) -> bool {
    c == CH_Y || c == CH_B || c == CH_N || c == CH_Q || c == CH_I || c == CH_U || c == CH_X
        || c == CH_T || c == CH_D || c == CH_H || c == CH_S || c == CH_O || c == CH_G
}

/// True of every byte that may open an element inside a signature,
/// including the dict-entry brace used for alignment lookups.
pub open spec fn is_sig_elem_char(c: u8) -> bool {
    is_basic_char(c) || c == CH_V || c == CH_A || c == CH_LPAREN || c == CH_LBRACE
}

/// Natural alignment of the element that starts with the given character.
pub open spec fn align_of_spec(c: u8) -> int {
    if c == CH_Y || c == CH_G || c == CH_V {
        1
    } else if c == CH_N || c == CH_Q {
        2
    } else if c == CH_I || c == CH_U || c == CH_B || c == CH_S || c == CH_O || c == CH_A
        || c == CH_H {
        4
    } else {
        8
    }
}

/// The smallest multiple of `align` that is at least `pos`.
pub open spec fn align_up_spec(pos: int, align: int) -> int {
    if pos % align == 0 {
        pos
    } else {
        pos + (align - pos % align)
    }
}

/// `align_up_spec` rounds up to the next multiple: it moves forward by less
/// than one alignment unit and lands on a multiple of `align`.
pub proof fn lemma_align_up(pos: int, align: int)
    requires
        pos >= 0,
        align == 1 || align == 2 || align == 4 || align == 8,
    ensures
        pos <= align_up_spec(pos, align) < pos + align,
        align_up_spec(pos, align) % align == 0,
{
    if pos % align != 0 {
        let r = pos % align;
        assert(0 < r < align);
        assert((pos + (align - r)) % align == 0) by (nonlinear_arith)
            requires
                align > 0,
                r == pos % align,
                0 < r < align,
        ;
    }
}

/// Length of the first single signature at the start of `s`, or `None` when
/// `s` does not begin with a well-formed single. `arrs` and `structs` count
/// the array and struct nesting already entered; each is capped at 32.
pub open spec fn sig_single_len(s: Seq<u8>, arrs: int, structs: int) -> Option<int>
    decreases s.len(), 0int,
{
    if s.len() == 0 {
        None
    } else if is_basic_char(s[0]) || s[0] == CH_V {
        Some(1)
    } else if s[0] == CH_A {
        if arrs >= 32 {
            None
        } else if s.len() >= 2 && s[1] == CH_LBRACE {
            if s.len() >= 3 && is_basic_char(s[2]) {
                match sig_single_len(s.skip(3), arrs + 1, structs) {
                    Some(l) => {
                        if 0 < l && 3 + l < s.len() && s[3 + l] == CH_RBRACE {
                            Some(4 + l)
                        } else {
                            None
                        }
                    },
                    None => None,
                }
            } else {
                None
            }
        } else {
            match sig_single_len(s.skip(1), arrs + 1, structs) {
                Some(l) => Some(1 + l),
                None => None,
            }
        }
    } else if s[0] == CH_LPAREN {
        if structs >= 32 {
            None
        } else {
            match sig_multi_len(s.skip(1), arrs, structs + 1) {
                Some(l) => {
                    if 0 < l && 1 + l < s.len() && s[1 + l] == CH_RPAREN {
                        Some(2 + l)
                    } else {
                        None
                    }
                },
                None => None,
            }
        }
    } else {
        None
    }
}

/// Length of the longest run of single signatures at the start of `s`,
/// stopping at the end of `s` or at a closing parenthesis; `None` when a
/// malformed single is met first.
pub open spec fn sig_multi_len(s: Seq<u8>, arrs: int, structs: int) -> Option<int>
    decreases s.len(), 1int,
{
    if s.len() == 0 {
        Some(0)
    } else if s[0] == CH_RPAREN {
        Some(0)
    } else {
        match sig_single_len(s, arrs, structs) {
            Some(l) => {
                if 0 < l <= s.len() {
                    match sig_multi_len(s.skip(l), arrs, structs) {
                        Some(m) => Some(l + m),
                        None => None,
                    }
                } else {
                    None
                }
            },
            None => None,
        }
    }
}

/// `s` is a well-formed signature of exactly one type.
pub open spec fn valid_single(s: Seq<u8>) -> bool {
    s.len() <= SIG_MAX_LEN && sig_single_len(s, 0, 0) == Some(s.len() as int)
}

/// `s` is a well-formed signature of zero or more types.
pub open spec fn valid_multi(s: Seq<u8>) -> bool {
    s.len() <= SIG_MAX_LEN && sig_multi_len(s, 0, 0) == Some(s.len() as int)
}

/// A parsed single covers at least one byte and never more than the input.
pub proof fn lemma_single_len_bounds(s: Seq<u8>, arrs: int, structs: int)
    ensures
        sig_single_len(s, arrs, structs) is Some ==> 1 <= sig_single_len(s, arrs, structs)->0
            <= s.len(),
    decreases s.len(), 0int,
{
    if s.len() == 0 {
    } else if is_basic_char(s[0]) || s[0] == CH_V {
    } else if s[0] == CH_A {
        if arrs >= 32 {
        } else if s.len() >= 2 && s[1] == CH_LBRACE {
            if s.len() >= 3 && is_basic_char(s[2]) {
                lemma_single_len_bounds(s.skip(3), arrs + 1, structs);
            }
        } else {
            lemma_single_len_bounds(s.skip(1), arrs + 1, structs);
        }
    } else if s[0] == CH_LPAREN {
        if structs < 32 {
            lemma_multi_len_bounds(s.skip(1), arrs, structs + 1);
        }
    }
}

/// A parsed multi run never covers more than the input.
pub proof fn lemma_multi_len_bounds(s: Seq<u8>, arrs: int, structs: int)
    ensures
        sig_multi_len(s, arrs, structs) is Some ==> 0 <= sig_multi_len(s, arrs, structs)->0
            <= s.len(),
    decreases s.len(), 1int,
{
    if s.len() == 0 {
    } else if s[0] == CH_RPAREN {
    } else {
        lemma_single_len_bounds(s, arrs, structs);
        match sig_single_len(s, arrs, structs) {
            Some(l) => {
                if 0 < l <= s.len() {
                    lemma_multi_len_bounds(s.skip(l), arrs, structs);
                }
            },
            None => {},
        }
    }
}


/// A parse that succeeds names only characters of the signature alphabet
/// at its first byte.
pub proof fn lemma_single_first_char(s: Seq<u8>, arrs: int, structs: int)
    requires
        sig_single_len(s, arrs, structs) is Some,
    ensures
        s.len() > 0,
        is_basic_char(s[0]) || s[0] == CH_V || s[0] == CH_A || s[0] == CH_LPAREN,
        is_sig_elem_char(s[0]),
{
}

/// Lower nesting counters accept everything higher ones do.
pub proof fn lemma_single_depth_mono(s: Seq<u8>, arrs: int, structs: int, a2: int, t2: int)
    requires
        a2 <= arrs,
        t2 <= structs,
        sig_single_len(s, arrs, structs) is Some,
    ensures
        sig_single_len(s, a2, t2) == sig_single_len(s, arrs, structs),
    decreases s.len(), 0int,
{
    if s.len() == 0 {
    } else if is_basic_char(s[0]) || s[0] == CH_V {
    } else if s[0] == CH_A {
        if arrs >= 32 {
        } else if s.len() >= 2 && s[1] == CH_LBRACE {
            if s.len() >= 3 && is_basic_char(s[2]) {
                if sig_single_len(s.skip(3), arrs + 1, structs) is Some {
                    lemma_single_depth_mono(s.skip(3), arrs + 1, structs, a2 + 1, t2);
                }
            }
        } else {
            if sig_single_len(s.skip(1), arrs + 1, structs) is Some {
                lemma_single_depth_mono(s.skip(1), arrs + 1, structs, a2 + 1, t2);
            }
        }
    } else if s[0] == CH_LPAREN {
        if structs < 32 {
            if sig_multi_len(s.skip(1), arrs, structs + 1) is Some {
                lemma_multi_depth_mono(s.skip(1), arrs, structs + 1, a2, t2 + 1);
            }
        }
    }
}

/// Lower nesting counters accept everything higher ones do.
pub proof fn lemma_multi_depth_mono(s: Seq<u8>, arrs: int, structs: int, a2: int, t2: int)
    requires
        a2 <= arrs,
        t2 <= structs,
        sig_multi_len(s, arrs, structs) is Some,
    ensures
        sig_multi_len(s, a2, t2) == sig_multi_len(s, arrs, structs),
    decreases s.len(), 1int,
{
    if s.len() == 0 {
    } else if s[0] == CH_RPAREN {
    } else {
        if sig_single_len(s, arrs, structs) is Some {
            lemma_single_depth_mono(s, arrs, structs, a2, t2);
            let l = sig_single_len(s, arrs, structs)->0;
            if 0 < l <= s.len() {
                if sig_multi_len(s.skip(l), arrs, structs) is Some {
                    lemma_multi_depth_mono(s.skip(l), arrs, structs, a2, t2);
                }
            }
        }
    }
}

/// Parsing a single reads nothing past its reported length: cutting the
/// input anywhere at or after that length leaves the outcome unchanged.
pub proof fn lemma_single_truncate(s: Seq<u8>, arrs: int, structs: int, n: int)
    requires
        sig_single_len(s, arrs, structs) is Some,
        sig_single_len(s, arrs, structs)->0 <= n <= s.len(),
    ensures
        sig_single_len(s.take(n), arrs, structs) == sig_single_len(s, arrs, structs),
    decreases s.len(), 0int,
{
    lemma_single_len_bounds(s, arrs, structs);
    let t = s.take(n);
    if is_basic_char(s[0]) || s[0] == CH_V {
    } else if s[0] == CH_A {
        if arrs >= 32 {
        } else if s.len() >= 2 && s[1] == CH_LBRACE {
            if s.len() >= 3 && is_basic_char(s[2]) {
                let l = sig_single_len(s.skip(3), arrs + 1, structs)->0;
                assert(t.skip(3) =~= s.skip(3).take(n - 3));
                lemma_single_truncate(s.skip(3), arrs + 1, structs, n - 3);
                assert(t[1] == CH_LBRACE && t[2] == s[2] && t[3 + l] == CH_RBRACE);
            }
        } else {
            let l = sig_single_len(s.skip(1), arrs + 1, structs)->0;
            assert(t.skip(1) =~= s.skip(1).take(n - 1));
            lemma_single_truncate(s.skip(1), arrs + 1, structs, n - 1);
        }
    } else if s[0] == CH_LPAREN {
        if structs < 32 {
            let l = sig_multi_len(s.skip(1), arrs, structs + 1)->0;
            assert(t.skip(1) =~= s.skip(1).take(n - 1));
            lemma_multi_truncate(s.skip(1), arrs, structs + 1, n - 1);
            assert(t[1 + l] == CH_RPAREN);
        }
    }
}

/// Parsing a multi run reads nothing past its reported length either.
pub proof fn lemma_multi_truncate(s: Seq<u8>, arrs: int, structs: int, n: int)
    requires
        sig_multi_len(s, arrs, structs) is Some,
        sig_multi_len(s, arrs, structs)->0 <= n <= s.len(),
    ensures
        sig_multi_len(s.take(n), arrs, structs) == sig_multi_len(s, arrs, structs),
    decreases s.len(), 1int,
{
    lemma_multi_len_bounds(s, arrs, structs);
    let t = s.take(n);
    if s.len() == 0 {
        assert(t =~= s);
    } else if s[0] == CH_RPAREN {
        if n > 0 {
            assert(t[0] == CH_RPAREN);
        }
    } else {
        lemma_single_len_bounds(s, arrs, structs);
        let l = sig_single_len(s, arrs, structs)->0;
        if 0 < l <= s.len() {
            let m = sig_multi_len(s.skip(l), arrs, structs)->0;
            lemma_multi_len_bounds(s.skip(l), arrs, structs);
            lemma_single_truncate(s, arrs, structs, n);
            assert(t.skip(l) =~= s.skip(l).take(n - l));
            lemma_multi_truncate(s.skip(l), arrs, structs, n - l);
            assert(t.len() == n);
        }
    }
}

/// Appending anything after a well-formed single does not change how the
/// single parses.
pub proof fn lemma_single_extend(s: Seq<u8>, arrs: int, structs: int, w: Seq<u8>)
    requires
        sig_single_len(s, arrs, structs) == Some(s.len() as int),
    ensures
        sig_single_len(s + w, arrs, structs) == Some(s.len() as int),
    decreases s.len(), 0int,
{
    let e = s + w;
    assert(e[0] == s[0]);
    if is_basic_char(s[0]) || s[0] == CH_V {
        assert(s.len() == 1);
    } else if s[0] == CH_A {
        if s.len() >= 2 && s[1] == CH_LBRACE {
            assert(e[1] == CH_LBRACE && e[2] == s[2]);
            let l = sig_single_len(s.skip(3), arrs + 1, structs)->0;
            lemma_single_len_bounds(s.skip(3), arrs + 1, structs);
            lemma_single_truncate(s.skip(3), arrs + 1, structs, l);
            assert(e.skip(3) =~= s.skip(3).take(l) + (s.skip(3).skip(l) + w));
            lemma_single_extend(s.skip(3).take(l), arrs + 1, structs, s.skip(3).skip(l) + w);
            assert(e[3 + l] == s[3 + l]);
        } else {
            assert(s.len() >= 2 ==> s[1] != CH_LBRACE);
            if s.len() >= 2 {
                assert(e.skip(1) =~= s.skip(1) + w);
                lemma_single_extend(s.skip(1), arrs + 1, structs, w);
            }
            assert(e.len() >= 2 ==> e[1] == s[1]);
        }
    } else if s[0] == CH_LPAREN {
        let l = sig_multi_len(s.skip(1), arrs, structs + 1)->0;
        assert(l == s.len() - 2);
        assert(e.skip(1) =~= s.skip(1) + w);
        lemma_multi_extend_stopped(s.skip(1), arrs, structs + 1, w);
        assert(e[1 + l] == s[1 + l]);
    }
}

/// A multi run that stopped at a closing parenthesis keeps stopping there
/// when more text follows.
pub proof fn lemma_multi_extend_stopped(s: Seq<u8>, arrs: int, structs: int, w: Seq<u8>)
    requires
        sig_multi_len(s, arrs, structs) is Some,
        sig_multi_len(s, arrs, structs)->0 < s.len(),
    ensures
        sig_multi_len(s + w, arrs, structs) == sig_multi_len(s, arrs, structs),
        s[sig_multi_len(s, arrs, structs)->0] == CH_RPAREN,
    decreases s.len(), 1int,
{
    let e = s + w;
    assert(e[0] == s[0]);
    if s[0] == CH_RPAREN {
    } else {
        let l = sig_single_len(s, arrs, structs)->0;
        lemma_single_len_bounds(s, arrs, structs);
        let m = sig_multi_len(s.skip(l), arrs, structs)->0;
        lemma_multi_len_bounds(s.skip(l), arrs, structs);
        lemma_single_truncate(s, arrs, structs, l);
        assert(e =~= s.take(l) + (s.skip(l) + w));
        lemma_single_extend(s.take(l), arrs, structs, s.skip(l) + w);
        assert(e.skip(l) =~= s.skip(l) + w);
        lemma_multi_extend_stopped(s.skip(l), arrs, structs, w);
    }
}

/// A well-formed multi followed by a well-formed single is a well-formed
/// multi of their joint length.
pub proof fn lemma_multi_concat(s: Seq<u8>, t: Seq<u8>)
    requires
        sig_multi_len(s, 0, 0) == Some(s.len() as int),
        sig_single_len(t, 0, 0) == Some(t.len() as int),
    ensures
        sig_multi_len(s + t, 0, 0) == Some(s.len() + t.len() as int),
    decreases s.len(),
{
    let e = s + t;
    lemma_single_len_bounds(t, 0, 0);
    if s.len() == 0 {
        assert(e =~= t);
        assert(t[0] != CH_RPAREN);
        assert(e.skip(t.len() as int) =~= Seq::<u8>::empty());
        assert(sig_multi_len(e.skip(t.len() as int), 0, 0) == Some(0int));
        assert(sig_multi_len(e, 0, 0) == Some(t.len() as int));
    } else {
        assert(s[0] != CH_RPAREN);
        let l = sig_single_len(s, 0, 0)->0;
        lemma_single_len_bounds(s, 0, 0);
        lemma_single_truncate(s, 0, 0, l);
        assert(e =~= s.take(l) + (s.skip(l) + t));
        lemma_single_extend(s.take(l), 0, 0, s.skip(l) + t);
        assert(e[0] == s[0]);
        assert(e.skip(l) =~= s.skip(l) + t);
        assert(sig_multi_len(s.skip(l), 0, 0) == Some(s.len() - l));
        lemma_multi_concat(s.skip(l), t);
        assert(sig_multi_len(e.skip(l), 0, 0) == Some(s.skip(l).len() + t.len() as int));
        assert(sig_single_len(e, 0, 0) == Some(l));
        assert(sig_multi_len(e, 0, 0) == Some(l + (s.skip(l).len() + t.len() as int)));
    }
}

/// A non-empty well-formed multi splits into a first well-formed single and
/// a well-formed rest.
pub proof fn lemma_multi_split(s: Seq<u8>)
    requires
        valid_multi(s),
        s.len() > 0,
    ensures
        sig_single_len(s, 0, 0) is Some,
        1 <= sig_single_len(s, 0, 0)->0 <= s.len(),
        valid_single(s.take(sig_single_len(s, 0, 0)->0)),
        valid_multi(s.skip(sig_single_len(s, 0, 0)->0)),
        is_sig_elem_char(s[0]),
{
    assert(s[0] != CH_RPAREN);
    lemma_single_len_bounds(s, 0, 0);
    let l = sig_single_len(s, 0, 0)->0;
    lemma_single_truncate(s, 0, 0, l);
    lemma_single_first_char(s, 0, 0);
    assert(s.skip(l).len() == s.len() - l);
}

/// The interior of a well-formed struct signature is a non-empty
/// well-formed multi between the parentheses.
pub proof fn lemma_struct_inner(s: Seq<u8>)
    requires
        valid_single(s),
        s.len() > 0,
        s[0] == CH_LPAREN,
    ensures
        s.len() >= 3,
        s[s.len() - 1] == CH_RPAREN,
        valid_multi(s.subrange(1, s.len() - 1)),
        s.subrange(1, s.len() - 1).len() > 0,
{
    let l = sig_multi_len(s.skip(1), 0, 1)->0;
    lemma_multi_len_bounds(s.skip(1), 0, 1);
    assert(l == s.len() - 2);
    lemma_multi_truncate(s.skip(1), 0, 1, l);
    assert(s.skip(1).take(l) =~= s.subrange(1, s.len() - 1));
    lemma_multi_depth_mono(s.skip(1).take(l), 0, 1, 0, 0);
}

/// The element signature of a plain (non-dict) array is the well-formed
/// single after the leading `a`.
pub proof fn lemma_array_inner(s: Seq<u8>)
    requires
        valid_single(s),
        s.len() >= 2,
        s[0] == CH_A,
        s[1] != CH_LBRACE,
    ensures
        valid_single(s.skip(1)),
        is_sig_elem_char(s[1]),
{
    let l = sig_single_len(s.skip(1), 1, 0)->0;
    lemma_single_len_bounds(s.skip(1), 1, 0);
    assert(l == s.len() - 1);
    lemma_single_depth_mono(s.skip(1), 1, 0, 0, 0);
    lemma_single_first_char(s.skip(1), 0, 0);
    assert(s.skip(1)[0] == s[1]);
}

/// A well-formed dict-entry array splits into a basic key signature and a
/// well-formed value signature, closed by the brace.
pub proof fn lemma_dict_inner(s: Seq<u8>)
    requires
        valid_single(s),
        s.len() >= 2,
        s[0] == CH_A,
        s[1] == CH_LBRACE,
    ensures
        s.len() >= 5,
        is_basic_char(s[2]),
        s[s.len() - 1] == CH_RBRACE,
        valid_single(s.subrange(2, 3)),
        valid_single(s.subrange(3, s.len() - 1)),
{
    let l = sig_single_len(s.skip(3), 1, 0)->0;
    lemma_single_len_bounds(s.skip(3), 1, 0);
    assert(l == s.len() - 4);
    lemma_single_truncate(s.skip(3), 1, 0, l);
    assert(s.skip(3).take(l) =~= s.subrange(3, s.len() - 1));
    lemma_single_depth_mono(s.skip(3).take(l), 1, 0, 0, 0);
    let k = s.subrange(2, 3);
    assert(k[0] == s[2] && k.len() == 1);
}


/// Every well-formed single signature is also a well-formed multi of one
/// element.
pub proof fn lemma_single_is_multi(s: Seq<u8>)
    requires
        valid_single(s),
    ensures
        valid_multi(s),
{
    lemma_single_len_bounds(s, 0, 0);
    lemma_single_first_char(s, 0, 0);
    assert(s[0] != CH_RPAREN);
    assert(s.skip(s.len() as int).len() == 0);
    assert(sig_multi_len(s.skip(s.len() as int), 0, 0) == Some(0int));
}


/// Every byte of a parsed signature is ASCII: the alphabet and the bracket
/// characters all lie below 0x80.
pub proof fn lemma_single_ascii(s: Seq<u8>, arrs: int, structs: int)
    requires
        sig_single_len(s, arrs, structs) is Some,
    ensures
        forall|i: int|
            0 <= i < sig_single_len(s, arrs, structs)->0 ==> #[trigger] s[i] < 0x80,
    decreases s.len(), 0int,
{
    lemma_single_len_bounds(s, arrs, structs);
    let l = sig_single_len(s, arrs, structs)->0;
    if is_basic_char(s[0]) || s[0] == CH_V {
    } else if s[0] == CH_A {
        if s.len() >= 2 && s[1] == CH_LBRACE {
            let l2 = sig_single_len(s.skip(3), arrs + 1, structs)->0;
            lemma_single_ascii(s.skip(3), arrs + 1, structs);
            assert forall|i: int| 0 <= i < l implies #[trigger] s[i] < 0x80 by {
                if 3 <= i < 3 + l2 {
                    assert(s.skip(3)[i - 3] == s[i]);
                    assert(s.skip(3)[i - 3] < 0x80);
                }
            }
        } else {
            let l2 = sig_single_len(s.skip(1), arrs + 1, structs)->0;
            lemma_single_ascii(s.skip(1), arrs + 1, structs);
            assert forall|i: int| 0 <= i < l implies #[trigger] s[i] < 0x80 by {
                if 1 <= i < 1 + l2 {
                    assert(s.skip(1)[i - 1] == s[i]);
                    assert(s.skip(1)[i - 1] < 0x80);
                }
            }
        }
    } else if s[0] == CH_LPAREN {
        let l2 = sig_multi_len(s.skip(1), arrs, structs + 1)->0;
        lemma_multi_ascii(s.skip(1), arrs, structs + 1);
        assert forall|i: int| 0 <= i < l implies #[trigger] s[i] < 0x80 by {
            if 1 <= i < 1 + l2 {
                assert(s.skip(1)[i - 1] == s[i]);
                assert(s.skip(1)[i - 1] < 0x80);
            }
        }
    }
}

/// Every byte of a parsed multi signature run is ASCII.
pub proof fn lemma_multi_ascii(s: Seq<u8>, arrs: int, structs: int)
    requires
        sig_multi_len(s, arrs, structs) is Some,
    ensures
        forall|i: int|
            0 <= i < sig_multi_len(s, arrs, structs)->0 ==> #[trigger] s[i] < 0x80,
    decreases s.len(), 1int,
{
    lemma_multi_len_bounds(s, arrs, structs);
    let m = sig_multi_len(s, arrs, structs)->0;
    if s.len() == 0 || s[0] == CH_RPAREN {
    } else {
        let l = sig_single_len(s, arrs, structs)->0;
        lemma_single_len_bounds(s, arrs, structs);
        lemma_single_ascii(s, arrs, structs);
        if 0 < l <= s.len() {
            lemma_multi_ascii(s.skip(l), arrs, structs);
            assert forall|i: int| 0 <= i < m implies #[trigger] s[i] < 0x80 by {
                if l <= i < m {
                    assert(s.skip(l)[i - l] == s[i]);
                    assert(s.skip(l)[i - l] < 0x80);
                }
            }
        }
    }
}

/// True when `r` reports the same outcome as the specification value `g`.
pub open spec fn len_result_matches(r: Option<usize>, g: Option<int>) -> bool {
    match r {
        Some(l) => g == Some(l as int),
        None => g is None,
    }
}

/// Whether `c` is a basic-type character.
pub fn is_basic(c: u8) -> (r: bool)
    ensures
        r == is_basic_char(c),
{
    c == CH_Y || c == CH_B || c == CH_N || c == CH_Q || c == CH_I || c == CH_U || c == CH_X
        || c == CH_T || c == CH_D || c == CH_H || c == CH_S || c == CH_O || c == CH_G
}

/// Natural alignment of the element starting with character `c`.
pub fn align_of(c: u8) -> (r: usize)
    requires
        is_sig_elem_char(c),
    ensures
        r as int == align_of_spec(c),
        r == 1 || r == 2 || r == 4 || r == 8,
{
    if c == CH_Y || c == CH_G || c == CH_V {
        1
    } else if c == CH_N || c == CH_Q {
        2
    } else if c == CH_I || c == CH_U || c == CH_B || c == CH_S || c == CH_O || c == CH_A
        || c == CH_H {
        4
    } else {
        8
    }
}

/// Round `pos` up to the next multiple of `align`.
pub fn align_up(pos: usize, align: usize) -> (r: usize)
    requires
        align == 1 || align == 2 || align == 4 || align == 8,
        pos + align - 1 <= usize::MAX,
    ensures
        r as int == align_up_spec(pos as int, align as int),
        pos <= r < pos + align,
        r as int % align as int == 0,
{
    proof {
        lemma_align_up(pos as int, align as int);
    }
    let rem = pos % align;
    if rem == 0 {
        pos
    } else {
        pos + (align - rem)
    }
}

/// Length of the first single signature of `s`, per the grammar.
pub fn sig_single_end(s: &[u8], arrs: u8, structs: u8) -> (r: Option<usize>)
    requires
        arrs <= 32,
        structs <= 32,
    ensures
        len_result_matches(r, sig_single_len(s@, arrs as int, structs as int)),
    decreases s@.len(), 0int,
{
    if s.len() == 0 {
        return None;
    }
    let c = s[0];
    if is_basic(c) || c == CH_V {
        Some(1)
    } else if c == CH_A {
        if arrs >= 32 {
            None
        } else if s.len() >= 2 && s[1] == CH_LBRACE {
            if s.len() >= 3 && is_basic(s[2]) {
                let rest = vstd::slice::slice_subrange(s, 3, s.len());
                match sig_single_end(rest, arrs + 1, structs) {
                    Some(l) => {
                        if 0 < l && l < s.len() - 3 && s[3 + l] == CH_RBRACE {
                            Some(4 + l)
                        } else {
                            None
                        }
                    },
                    None => None,
                }
            } else {
                None
            }
        } else {
            let rest = vstd::slice::slice_subrange(s, 1, s.len());
            match sig_single_end(rest, arrs + 1, structs) {
                Some(l) => {
                    proof {
                        lemma_single_len_bounds(rest@, arrs + 1, structs as int);
                    }
                    Some(1 + l)
                },
                None => None,
            }
        }
    } else if c == CH_LPAREN {
        if structs >= 32 {
            None
        } else {
            let rest = vstd::slice::slice_subrange(s, 1, s.len());
            match sig_multi_end(rest, arrs, structs + 1) {
                Some(l) => {
                    if 0 < l && l < s.len() - 1 && s[1 + l] == CH_RPAREN {
                        Some(2 + l)
                    } else {
                        None
                    }
                },
                None => None,
            }
        }
    } else {
        None
    }
}

/// Length of the run of single signatures at the start of `s`, stopping at
/// the end or at a closing parenthesis.
pub fn sig_multi_end(s: &[u8], arrs: u8, structs: u8) -> (r: Option<usize>)
    requires
        arrs <= 32,
        structs <= 32,
    ensures
        len_result_matches(r, sig_multi_len(s@, arrs as int, structs as int)),
    decreases s@.len(), 1int,
{
    if s.len() == 0 {
        return Some(0);
    }
    if s[0] == CH_RPAREN {
        return Some(0);
    }
    match sig_single_end(s, arrs, structs) {
        Some(l) => {
            if 0 < l && l <= s.len() {
                let rest = vstd::slice::slice_subrange(s, l, s.len());
                match sig_multi_end(rest, arrs, structs) {
                    Some(m) => {
                        proof {
                            lemma_multi_len_bounds(rest@, arrs as int, structs as int);
                        }
                        Some(l + m)
                    },
                    None => None,
                }
            } else {
                None
            }
        },
        None => None,
    }
}

/// Whether `s` is a well-formed signature of exactly one type.
pub fn check_single(s: &[u8]) -> (r: bool)
    ensures
        r == valid_single(s@),
{
    if s.len() > SIG_MAX_LEN {
        false
    } else {
        match sig_single_end(s, 0, 0) {
            Some(l) => l == s.len(),
            None => false,
        }
    }
}

/// Whether `s` is a well-formed signature of zero or more types.
pub fn check_multi(s: &[u8]) -> (r: bool)
    ensures
        r == valid_multi(s@),
{
    if s.len() > SIG_MAX_LEN {
        false
    } else {
        match sig_multi_end(s, 0, 0) {
            Some(l) => l == s.len(),
            None => false,
        }
    }
}

} // verus!
