//! Text operations of the standard library that the rest of the crate builds
//! on. Each function here is believed, not proved; `plain` holds the text
//! operations that are proved.

use vstd::prelude::*;

verus! {

/// The upper-case form of a text, as `str::to_uppercase` gives it.
pub uninterp spec fn uppercase(s: Seq<char>) -> Seq<char>;

/// The lower-case form of a text, as `str::to_lowercase` gives it.
pub uninterp spec fn lowercase(s: Seq<char>) -> Seq<char>;

/// The number that `str::parse::<u32>` reads from a text, if it reads one.
pub uninterp spec fn parsed_u32(s: Seq<char>) -> Option<u32>;

/// The number that `str::parse::<u16>` reads from a text, if it reads one.
pub uninterp spec fn parsed_u16(s: Seq<char>) -> Option<u16>;

/// The second of the pieces into which `str::split` cuts a text at each
/// occurrence of `separator`; nothing where the separator does not occur.
pub uninterp spec fn second_piece(s: Seq<char>, separator: Seq<char>) -> Option<Seq<char>>;

/// The last component of the path is `child`, as `Path::ends_with` tells on
/// the platform the library is built for.
pub uninterp spec fn path_has_suffix(path: Seq<char>, child: Seq<char>) -> bool;

/// The path without its last component, as `Path::parent` gives it on the
/// platform the library is built for; nothing for a root or an empty path.
pub uninterp spec fn parent_path(path: Seq<char>) -> Option<Seq<char>>;

/// The text found in a JSON document under the key `inner` of the object
/// under the key `outer`, if the document parses and holds a text there.
pub uninterp spec fn json_nested_text(document: Seq<char>, outer: Seq<char>, inner: Seq<char>)
    -> Option<Seq<char>>;

/// The number that `str::parse::<u64>` reads from a text, if it reads one.
pub uninterp spec fn parsed_u64(s: Seq<char>) -> Option<u64>;

/// `needle` occurs in `hay` as a run of consecutive characters.
pub open spec fn occurs_in(needle: Seq<char>, hay: Seq<char>) -> bool {
    exists|i: int|
        0 <= i && i + needle.len() <= hay.len() && #[trigger] hay.subrange(
            i,
            i + needle.len(),
        ) == needle
}

/// `str::to_uppercase`: the result is the upper-case form of the argument.
#[verifier::external_body]
pub(crate) fn to_uppercase(s: &str) -> (r: String)
    ensures
        r@ == uppercase(s@),
{
    s.to_uppercase()
}

/// `str::to_lowercase`: the result is the lower-case form of the argument.
#[verifier::external_body]
pub(crate) fn to_lowercase(s: &str) -> (r: String)
    ensures
        r@ == lowercase(s@),
{
    s.to_lowercase()
}

/// `str::contains` with a text pattern: true exactly when the pattern occurs
/// somewhere in the text.
#[verifier::external_body]
pub(crate) fn contains(hay: &str, needle: &str) -> (r: bool)
    ensures
        r == occurs_in(needle@, hay@),
{
    hay.contains(needle)
}

/// `str::parse::<u32>`: the number read from the text, or nothing.
#[verifier::external_body]
pub(crate) fn parse_u32(s: &str) -> (r: Option<u32>)
    ensures
        r == parsed_u32(s@),
{
    s.parse::<u32>().ok()
}

/// `str::parse::<u16>`: the number read from the text, or nothing.
#[verifier::external_body]
pub(crate) fn parse_u16(s: &str) -> (r: Option<u16>)
    ensures
        r == parsed_u16(s@),
{
    s.parse::<u16>().ok()
}

/// `str::split` with a text separator, its second item: the piece between
/// the first and the second occurrence of the separator, or nothing when the
/// separator does not occur.
#[verifier::external_body]
pub(crate) fn split_second<'a>(s: &'a str, separator: &str) -> (r: Option<&'a str>)
    ensures
        match r {
            Some(p) => second_piece(s@, separator@) == Some(p@),
            None => second_piece(s@, separator@) is None,
        },
{
    s.split(separator).nth(1)
}

/// `Path::ends_with`: whether the last components of the path are `child`.
#[verifier::external_body]
pub(crate) fn path_ends_with(path: &str, child: &str) -> (r: bool)
    ensures
        r == path_has_suffix(path@, child@),
{
    std::path::Path::new(path).ends_with(child)
}

/// `Path::parent`: the path without its last component, as text.
#[verifier::external_body]
pub(crate) fn path_parent(path: &str) -> (r: Option<String>)
    ensures
        match r {
            Some(p) => parent_path(path@) == Some(p@),
            None => parent_path(path@) is None,
        },
{
    std::path::Path::new(path).parent().map(|p| p.to_string_lossy().into_owned())
}

/// `serde_json::from_str` into a `Value`, then `Value::get` twice and
/// `Value::as_str`: the text under `outer`, then `inner`, or nothing when the
/// document does not parse or holds no text there.
#[verifier::external_body]
pub(crate) fn json_nested_str(document: &str, outer: &str, inner: &str) -> (r: Option<String>)
    ensures
        match r {
            Some(t) => json_nested_text(document@, outer@, inner@) == Some(t@),
            None => json_nested_text(document@, outer@, inner@) is None,
        },
{
    match serde_json::from_str::<serde_json::Value>(document) {
        Ok(json) => json.get(outer).and_then(|o| o.get(inner)).and_then(|v| v.as_str()).map(
            |t| t.to_string(),
        ),
        Err(_) => None,
    }
}

/// `str::parse::<u64>`: the number read from the text, or nothing.
#[verifier::external_body]
pub(crate) fn parse_u64(s: &str) -> (r: Option<u64>)
    ensures
        r == parsed_u64(s@),
{
    s.parse::<u64>().ok()
}

} // verus!
