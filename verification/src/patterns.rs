//! The boundary to the regular-expression engine. Placeholder extraction is
//! delegated to the `regex` crate; its results are named by uninterpreted
//! spec functions, and everything downstream of them is verified.

use vstd::prelude::*;

verus! {

/// Whether the pattern text is a valid regular expression, i.e. whether
/// compiling it succeeds.
pub uninterp spec fn pattern_valid(pattern: Seq<char>) -> bool;

/// The ordered sequence of non-overlapping substrings of `text` that the
/// compiled `pattern` matches, in order of appearance.
pub uninterp spec fn found_in(pattern: Seq<char>, text: Seq<char>) -> Seq<Seq<char>>;

/// Relies on `regex::Regex::new`: it returns `Ok` exactly when the pattern
/// text compiles as a regular expression, and compilation is a function of
/// the pattern text alone.
#[verifier::external_body]
pub(crate) fn regex_pattern_ok(pattern: &str) -> (r: bool)
    ensures
        r == pattern_valid(pattern@),
{
    regex::Regex::new(pattern).is_ok()
}

/// Relies on `regex::Regex::new` and `regex::Regex::find_iter`: for a valid
/// pattern, `find_iter` yields the successive non-overlapping matches in the
/// haystack from left to right, a function of the pattern and the haystack
/// alone.
#[verifier::external_body]
pub(crate) fn regex_find_all(pattern: &str, text: &str) -> (r: Vec<String>)
    requires
        pattern_valid(pattern@),
    ensures
        r@.map_values(|s: String| s@) == found_in(pattern@, text@),
{
    let re = regex::Regex::new(pattern).unwrap();
    re.find_iter(text).map(|m| m.as_str().to_string()).collect()
}

} // verus!
