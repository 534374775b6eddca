use vstd::prelude::*;

verus! {

/// What the upper-case mapping of `str::to_uppercase` gives for a text.
pub uninterp spec fn upper_of(s: Seq<char>) -> Seq<char>;

/// The ASCII capital of a character, or the character itself.
pub open spec fn ascii_upper(c: char) -> char {
    if 'a' <= c && c <= 'z' { ((c as u32) - 32) as char } else { c }
}

/// Relies on `str::to_uppercase`: the full Unicode upper-case mapping of the text,
/// which takes an ASCII text to its ASCII capitals.
#[verifier::external_body]
pub(crate) fn uppercase(s: &String) -> (r: String)
    ensures
        r@ == upper_of(s@),
        (forall|i: int| 0 <= i < s@.len() ==> (#[trigger] s@[i] as u32) < 128)
            ==> r@ == s@.map_values(|c: char| ascii_upper(c)),
{
    s.to_uppercase()
}

/// Relies on `str::chars`, collected: the characters of the text in order.
#[verifier::external_body]
pub(crate) fn chars_of(s: &String) -> (r: Vec<char>)
    ensures
        r@ == s@,
{
    s.chars().collect()
}

/// Relies on `String`'s `FromIterator<&char>`: the text of the characters in order.
#[verifier::external_body]
pub(crate) fn string_of(chars: &Vec<char>) -> (r: String)
    ensures
        r@ == chars@,
{
    chars.iter().collect()
}

/// What `Path::with_extension` gives: the path with the extension of its file
/// name set to `ext`.
pub uninterp spec fn path_with_extension(path: Seq<char>, ext: Seq<char>) -> Seq<char>;

/// Relies on `Path::with_extension`; the path and the extension are UTF-8, so the
/// result converts back to a `String` without loss. It panics on an extension
/// that holds a path separator, which `requires` leaves out.
#[verifier::external_body]
pub(crate) fn with_extension(path: &String, ext: &str) -> (r: String)
    requires
        forall|i: int| 0 <= i < ext@.len() ==> ext@[i] != '/' && ext@[i] != '\\',
    ensures
        r@ == path_with_extension(path@, ext@),
{
    std::path::Path::new(path.as_str()).with_extension(ext).to_string_lossy().into_owned()
}

} // verus!
