//! Regular expressions, as the `regex` crate compiles and runs them.

use vstd::prelude::*;

verus! {

/// The compiled expression of the `regex` crate, `regex::Regex`. Nothing
/// of its inside is known here; it is carried from [`compile`] to [`find`].
#[verifier::external_type_specification]
#[verifier::external_body]
pub struct ExRegex(regex::Regex);

/// Whether `regex::Regex::new` accepts `pattern`.
pub uninterp spec fn regex_accepts(pattern: Seq<char>) -> bool;

/// The pattern that a compiled expression was made from, as
/// `regex::Regex::as_str` gives it.
pub uninterp spec fn regex_source(re: regex::Regex) -> Seq<char>;

/// The leftmost match of `pattern` in `text`, as `regex::Regex::find`
/// gives it for the expression compiled from `pattern`.
pub uninterp spec fn regex_find(pattern: Seq<char>, text: Seq<char>) -> Option<Seq<char>>;

/// `regex::Regex::new`: the compiled expression, or nothing where the
/// pattern is refused. Whether a pattern is accepted depends on the pattern
/// alone, and the compiled expression keeps the pattern as its source.
#[verifier::external_body]
pub(crate) fn compile(pattern: &str) -> (out: Option<regex::Regex>)
    ensures
        out is Some <==> regex_accepts(pattern@),
        out matches Some(re) ==> regex_source(re) == pattern@,
{
    regex::Regex::new(pattern).ok()
}

/// `regex::Regex::find`: the text of the leftmost match in `text`, if
/// there is a match. It is a function of the expression's source and of
/// `text` alone, named [`regex_find`]; nothing more is claimed of it.
#[verifier::external_body]
pub(crate) fn find(re: &regex::Regex, text: &str) -> (out: Option<String>)
    ensures
        out is Some <==> regex_find(regex_source(*re), text@) is Some,
        out matches Some(m) ==> regex_find(regex_source(*re), text@) == Some(m@),
{
    re.find(text).map(|m| m.as_str().to_owned())
}

} // verus!
