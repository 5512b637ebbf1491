//! Paths, as far as this library looks into them.
//!
//! A path is carried as the standard library holds it, so that one which is
//! not valid Unicode survives. Contracts speak of its platform encoding.

use std::path::PathBuf;

use vstd::prelude::*;

verus! {

#[verifier::external_type_specification]
#[verifier::external_body]
pub struct ExPathBuf(std::path::PathBuf);

/// What a path holds: its bytes in the platform encoding of
/// `OsStr::as_encoded_bytes`, a superset of UTF-8.
pub uninterp spec fn os_bytes(path: PathBuf) -> Seq<u8>;

/// What `Path::join` puts together from a base and a name, on the platform
/// that the library is compiled for.
pub uninterp spec fn joined(base: Seq<u8>, name: Seq<char>) -> Seq<u8>;

/// What `Path::to_string_lossy` makes of a path.
pub uninterp spec fn lossy_text(os: Seq<u8>) -> Seq<char>;

/// A name that no platform takes for anything but one component of a path: ASCII
/// letters, digits and dashes, at least one of them.
pub open spec fn is_plain_name(name: Seq<char>) -> bool {
    &&& name.len() > 0
    &&& forall|i: int| 0 <= i < name.len() ==> is_plain_char(#[trigger] name[i])
}

pub open spec fn is_plain_char(c: char) -> bool {
    '0' <= c <= '9' || 'a' <= c <= 'z' || 'A' <= c <= 'Z' || c == '-'
}

/// What can come before the last component of a path: a slash, a backslash, or
/// the colon of a drive.
pub open spec fn is_delimiter(byte: u8) -> bool {
    byte == 0x2f || byte == 0x5c || byte == 0x3a
}

/// The bytes of an ASCII text.
pub open spec fn ascii_bytes(text: Seq<char>) -> Seq<u8> {
    Seq::new(text.len(), |i: int| text[i] as u8)
}

/// The path's last component is `name`.
pub open spec fn ends_in_name(os: Seq<u8>, name: Seq<char>) -> bool {
    let start = os.len() - name.len();
    &&& start >= 0
    &&& os.skip(start) == ascii_bytes(name)
    &&& start > 0 ==> is_delimiter(os[start - 1])
}

/// A Windows path that starts with `\\?\`. Extending one normalizes it.
pub open spec fn is_verbatim(os: Seq<u8>) -> bool {
    os.len() >= 4 && os[0] == 0x5c && os[1] == 0x5c && os[2] == 0x3f && os[3] == 0x5c
}

/// `path` is the base, a delimiter unless the base brings one or is empty, and the
/// name.
pub open spec fn is_direct_child(base: Seq<u8>, name: Seq<char>, path: Seq<u8>) -> bool {
    ||| path == base + ascii_bytes(name) && (base.len() > 0 ==> is_delimiter(base.last()))
    ||| exists|delimiter: u8| #[trigger]
        is_delimiter(delimiter) && path == base + seq![delimiter] + ascii_bytes(name)
}

/// `path` is the base extended by the name.
pub open spec fn is_join(base: Seq<u8>, name: Seq<char>, path: Seq<u8>) -> bool {
    &&& path == joined(base, name)
    &&& is_plain_name(name) ==> ends_in_name(path, name)
    &&& is_plain_name(name) && !is_verbatim(base) ==> is_direct_child(base, name, path)
}

/// `Path::join`.
///
/// Claimed: the bytes of the result depend on those of the base and on the name
/// alone; and a plain name becomes the last component of a path that extends the
/// base by that name and at most one byte more (of a verbatim base, which is
/// normalized, only that it becomes the last component). Left unsaid: which
/// separator comes between the two; that is the platform's affair.
#[verifier::external_body]
pub(crate) fn join(base: &PathBuf, name: &str) -> (path: PathBuf)
    ensures
        os_bytes(path) == joined(os_bytes(*base), name@),
        is_plain_name(name@) ==> ends_in_name(os_bytes(path), name@),
        is_plain_name(name@) && !is_verbatim(os_bytes(*base)) ==> os_bytes(*base).is_prefix_of(
            os_bytes(path),
        ) && os_bytes(*base).len() + name@.len() <= os_bytes(path).len() <= os_bytes(*base).len()
            + 1 + name@.len(),
{
    base.join(name)
}

/// A path that extends the base by a last component and at most one byte more is
/// a direct child.
pub(crate) proof fn lemma_direct_child(base: Seq<u8>, name: Seq<char>, path: Seq<u8>)
    requires
        ends_in_name(path, name),
        base.is_prefix_of(path),
        base.len() + name.len() <= path.len() <= base.len() + 1 + name.len(),
    ensures
        is_direct_child(base, name, path),
{
    let start = path.len() - name.len();
    assert(path.take(start) + path.skip(start) =~= path);
    assert(path.take(base.len() as int) =~= base);
    if start == base.len() {
        assert(path =~= base + ascii_bytes(name));
    } else {
        assert(is_delimiter(path[start - 1]));
        assert(path.take(start) =~= base + seq![path[start - 1]]);
    }
}

/// Paths whose last components differ are different.
pub(crate) proof fn lemma_last_component_tells_apart(os: Seq<u8>, a: Seq<char>, b: Seq<char>)
    requires
        is_plain_name(a),
        is_plain_name(b),
        ends_in_name(os, a),
        ends_in_name(os, b),
    ensures
        a == b,
{
    lemma_last_component_is_longest(os, a, b);
    lemma_last_component_is_longest(os, b, a);
    assert forall|i: int| 0 <= i < a.len() implies a[i] == b[i] by {
        assert(is_plain_char(a[i]) && is_plain_char(b[i]));
        assert(ascii_bytes(a)[i] == ascii_bytes(b)[i]);
    }
    assert(a =~= b);
}

/// A last component reaches back to a delimiter, which no plain name holds.
proof fn lemma_last_component_is_longest(os: Seq<u8>, a: Seq<char>, b: Seq<char>)
    requires
        is_plain_name(b),
        ends_in_name(os, a),
        ends_in_name(os, b),
    ensures
        a.len() >= b.len(),
{
    if a.len() < b.len() {
        let at = b.len() - a.len() - 1;
        assert(is_plain_char(b[at]));
        assert(os.skip(os.len() - b.len())[at] == ascii_bytes(b)[at]);
        assert(os[os.len() - a.len() - 1] == b[at] as u8);
    }
}

/// `Path::to_string_lossy`, as an owned string.
///
/// Claimed: the text depends on the bytes of the path alone; a path that is
/// valid Unicode comes out as it is; and only an empty path gives an empty
/// text, since what is not Unicode is replaced and not dropped.
#[verifier::external_body]
pub(crate) fn to_string_lossy(path: &PathBuf) -> (text: String)
    ensures
        text@ == lossy_text(os_bytes(*path)),
        vstd::utf8::valid_utf8(os_bytes(*path)) ==> text@ == vstd::utf8::decode_utf8(os_bytes(*path)),
        text@.len() == 0 <==> os_bytes(*path).len() == 0,
{
    path.to_string_lossy().into_owned()
}

} // verus!
