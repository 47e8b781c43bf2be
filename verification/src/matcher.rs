//! The fuzzy matcher that scores project names against a query.

use fuzzy_matcher::skim::SkimMatcherV2;
use fuzzy_matcher::FuzzyMatcher;
use vstd::prelude::*;

verus! {

/// The score that the skim matcher gives to `choice` for `pattern` when it
/// ignores case, and `None` where it finds no match. The matcher's
/// algorithm is not part of this library; the score is a function of the two
/// texts alone.
pub uninterp spec fn skim_score(choice: Seq<char>, pattern: Seq<char>) -> Option<i64>;

/// Calls `fuzzy_match` of `fuzzy_matcher::skim::SkimMatcherV2`, on a matcher
/// in its default configuration that is set to ignore case, with `choice` as
/// the text that is searched and `pattern` as what is searched for. Nothing
/// is claimed of the score but that it depends on the two texts alone.
#[verifier::external_body]
pub(crate) fn fuzzy_match(choice: &str, pattern: &str) -> (score: Option<i64>)
    ensures
        score == skim_score(choice@, pattern@),
{
    SkimMatcherV2::default().ignore_case().fuzzy_match(choice, pattern)
}

} // verus!
