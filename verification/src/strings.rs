//! Validity of the string payloads that appear on the wire: UTF-8 decoding,
//! the plain D-Bus string rules, and object path syntax.

use vstd::prelude::*;
use vstd::string::StringSliceAdditionalSpecFns;
use vstd::utf8::{
    is_leading_byte_width_1, partial_valid_utf8, partial_valid_utf8_extend_ascii_block,
    valid_utf8,
};

verus! {

/// A D-Bus string must be valid UTF-8, hold no interior NUL byte, and be
/// shorter than 128 MiB. This is the byte-level part; UTF-8 validity is
/// tracked separately.
pub open spec fn dbus_str_ok(b: Seq<u8>) -> bool {
    b.len() < 134217728 && (forall|i: int| 0 <= i < b.len() ==> b[i] != 0)
}

/// Characters allowed inside an object path element: `A`-`Z`, `a`-`z`,
/// `0`-`9` and `_`.
pub open spec fn is_path_elem_char(c: u8) -> bool {
    (65 <= c <= 90) || (97 <= c <= 122) || (48 <= c <= 57) || c == 95
}

/// Object path syntax over the UTF-8 bytes: a leading `/`, then non-empty
/// elements of path characters separated by single slashes, with no
/// trailing slash. `"/"` alone is allowed.
pub open spec fn object_path_ok(b: Seq<u8>) -> bool {
    b.len() >= 1 && b[0] == 47 && (b.len() == 1 || (b[b.len() - 1] != 47 && (forall|i: int|
        1 <= i < b.len() ==> is_path_elem_char(#[trigger] b[i]) || (b[i] == 47 && b[i - 1]
            != 47))))
}

/// A sequence of ASCII bytes is valid UTF-8: each byte is its own
/// one-byte character encoding.
pub proof fn lemma_ascii_valid_utf8(b: Seq<u8>)
    requires
        forall|i: int| 0 <= i < b.len() ==> #[trigger] b[i] < 0x80,
    ensures
        valid_utf8(b),
{
    assert(b.subrange(0, 0) =~= Seq::<u8>::empty());
    assert(valid_utf8(b.subrange(0, 0)));
    assert(partial_valid_utf8(b, 0));
    assert(forall|i: int| 0 <= i < b.len() ==> is_leading_byte_width_1(#[trigger] b[i]));
    partial_valid_utf8_extend_ascii_block(b, 0, b.len() as int);
    assert(b.subrange(0, b.len() as int) =~= b);
}

/// Relies on `core::str::from_utf8`: it accepts exactly the valid UTF-8
/// byte sequences, and the accepted string views those same bytes.
#[verifier::external_body]
pub(crate) fn try_utf8(b: &[u8]) -> (r: Option<&str>)
    ensures
        r is Some <==> valid_utf8(b@),
        r is Some ==> r->0.spec_bytes() == b@,
{
    core::str::from_utf8(b).ok()
}

/// Relies on `dbus_strings::DBusStr::is_valid`: a `&str` is a valid D-Bus
/// string exactly when it is shorter than 128 MiB and holds no NUL byte.
#[verifier::external_body]
pub(crate) fn dbus_str_check(s: &str) -> (r: bool)
    ensures
        r == dbus_str_ok(s.spec_bytes()),
{
    <dbus_strings::DBusStr as dbus_strings::StringLike>::is_valid(s).is_ok()
}

/// Relies on `dbus_strings::ObjectPath::is_valid`: a `&str` is a valid
/// object path exactly when its bytes satisfy [`object_path_ok`].
#[verifier::external_body]
pub(crate) fn object_path_check(s: &str) -> (r: bool)
    ensures
        r == object_path_ok(s.spec_bytes()),
{
    <dbus_strings::ObjectPath as dbus_strings::StringLike>::is_valid(s).is_ok()
}

} // verus!
