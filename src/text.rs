use vstd::prelude::*;

verus! {

/// `needle` occurs as a contiguous run of `hay`.
pub open spec fn is_substring(needle: Seq<char>, hay: Seq<char>) -> bool {
    exists|i: int|
        0 <= i && i + needle.len() <= hay.len() && #[trigger] hay.subrange(i, i + needle.len())
            == needle
}

/// The lower-case form of a text, as Rust's Unicode case mapping gives it.
pub uninterp spec fn lower_of(s: Seq<char>) -> Seq<char>;

/// Relies on `str::contains` with a `&str` pattern: true exactly when the
/// pattern occurs as a contiguous run of the text.
#[verifier::external_body]
fn str_contains(hay: &str, needle: &str) -> (r: bool)
    ensures
        r == is_substring(needle@, hay@),
{
    hay.contains(needle)
}

/// Relies on `str::to_lowercase`: the result depends on the characters alone.
#[verifier::external_body]
fn lowercase(s: &str) -> (r: String)
    ensures
        r@ == lower_of(s@),
{
    s.to_lowercase()
}

/// Case-sensitive match: `fragment` occurs in `text`.
pub fn contains(text: &str, fragment: &str) -> (r: bool)
    ensures
        r == is_substring(fragment@, text@),
{
    str_contains(text, fragment)
}

/// Match on lower-case forms: the lower-case `fragment` occurs in the
/// lower-case `text`. (Lower-casing is not full case folding: "ß" and "SS"
/// lower-case to different texts.)
pub fn contains_folded(text: &str, fragment: &str) -> (r: bool)
    ensures
        r == is_substring(lower_of(fragment@), lower_of(text@)),
{
    let t = lowercase(text);
    let f = lowercase(fragment);
    contains(t.as_str(), f.as_str())
}

} // verus!
