//! The skim scorer of the `fuzzy_matcher` crate, as far as this library
//! relies on it.
//!
//! Nothing in this file is proved. It holds the one call into the scorer and
//! the one assumption made of it: that its answer depends on the two strings
//! alone. Whether the answer is a match at all, and whether its positions are
//! an alignment, is checked where the answer is used.

use fuzzy_matcher::skim::SkimMatcherV2;
use fuzzy_matcher::FuzzyMatcher;
use vstd::prelude::*;

verus! {

/// What the skim scorer, set to ignore case, answers for `pattern` against
/// `choice`: nothing, or a score and the character offsets it aligned the
/// pattern with.
pub uninterp spec fn skim_outcome(choice: Seq<char>, pattern: Seq<char>) -> Option<
    (i64, Seq<usize>),
>;

/// A scorer's answer with its positions as a sequence.
pub open spec fn outcome_view(outcome: Option<(i64, Vec<usize>)>) -> Option<(i64, Seq<usize>)> {
    match outcome {
        Some((score, positions)) => Some((score, positions@)),
        None => None,
    }
}

/// Calls `fuzzy_indices` of `fuzzy_matcher::skim::SkimMatcherV2` on a matcher
/// made for this one call with `default()` and `ignore_case()`. Nothing is
/// claimed of the answer but that it is the one answer these two strings
/// have: a fresh matcher carries no state from earlier calls.
#[verifier::external_body]
pub(crate) fn skim_fuzzy_indices(choice: &str, pattern: &str) -> (r: Option<(i64, Vec<usize>)>)
    ensures
        outcome_view(r) == skim_outcome(choice@, pattern@),
{
    SkimMatcherV2::default().ignore_case().fuzzy_indices(choice, pattern)
}

} // verus!
