//! The debug forms of command lines and strings, as the command log shows
//! them.
use vstd::prelude::*;

verus! {

/// The debug form of a list of strings: each quoted, with escapes, between
/// brackets and separated by commas.
pub uninterp spec fn debug_list(line: Seq<Seq<char>>) -> Seq<char>;

/// The debug form of the command line `line`.
///
/// Formats `line` with `format!("{:?}", line)`, std's `Debug` for a slice
/// of strings. The contract names the text `debug_list` of the strings.
#[verifier::external_body]
pub(crate) fn debug_strings(line: &[String]) -> (text: String)
    ensures
        text@ == debug_list(line@.map_values(|s: String| s@)),
{
    format!("{:?}", line)
}


/// The debug form of a string: quoted, with escapes.
pub uninterp spec fn debug_quoted(s: Seq<char>) -> Seq<char>;

/// The debug form of the string `s`.
///
/// Formats `s` with `format!("{:?}", s)`, std's `Debug` for `str`. The
/// contract names the text `debug_quoted` of the string.
#[verifier::external_body]
pub(crate) fn debug_str(s: &str) -> (text: String)
    ensures
        text@ == debug_quoted(s@),
{
    format!("{:?}", s)
}

} // verus!
