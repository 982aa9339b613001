//! The fuzzy-match score used by the history and index searches.

use fuzzy_matcher::skim::SkimMatcherV2;
use fuzzy_matcher::FuzzyMatcher;
use vstd::prelude::*;

verus! {

/// The score SkimMatcherV2's default configuration gives a candidate for
/// a query: `None` when the candidate does not match at all. A function
/// of the two texts alone.
pub uninterp spec fn fuzzy_score(choice: Seq<char>, query: Seq<char>) -> Option<i64>;

/// Relies on fuzzy_matcher's `SkimMatcherV2::fuzzy_match` with the
/// default configuration: the score depends on the candidate and query
/// text alone.
#[verifier::external_body]
pub fn fuzzy_match_score(choice: &str, query: &str) -> (r: Option<i64>)
    ensures
        r == fuzzy_score(choice@, query@),
{
    let matcher = SkimMatcherV2::default();
    matcher.fuzzy_match(choice, query)
}

} // verus!
