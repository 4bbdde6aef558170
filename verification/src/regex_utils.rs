//! Regular-expression matching for the find and listing filters. Whether a
//! pattern compiles and whether it matches a text are functions of the
//! pattern and text alone, so both carry names the contracts can share.

use vstd::prelude::*;

verus! {

pub uninterp spec fn regex_accepts(pattern: Seq<char>) -> bool;

pub uninterp spec fn regex_match(pattern: Seq<char>, text: Seq<char>) -> bool;

/// Relies on regex::Regex::new and regex::Regex::is_match: compilation
/// succeeds or fails on the pattern alone, and matching depends only on the
/// pattern and the text.
#[verifier::external_body]
pub fn regex_is_match(pattern: &str, text: &str) -> (r: Option<bool>)
    ensures
        r is Some <==> regex_accepts(pattern@),
        r is Some ==> r->0 == regex_match(pattern@, text@),
{
    regex::Regex::new(pattern).ok().map(|re| re.is_match(text))
}

} // verus!
