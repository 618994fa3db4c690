//! Fuzzy matching algorithms and implementations.
use vstd::prelude::*;

pub mod util;
pub mod fzy;
pub mod arinae;
pub mod skim_v3;
pub mod frizbee;

verus! {

pub type IndexType = usize;

pub type ScoreType = i64;

pub type MatchIndices = Vec<IndexType>;

/// The first and last of a sequence of indices, `0` standing in for a missing one.
pub open spec fn first_or_zero(v: Seq<usize>) -> usize {
    if v.len() > 0 { v[0] } else { 0usize }
}

pub open spec fn last_or_zero(v: Seq<usize>) -> usize {
    if v.len() > 0 { v[v.len() - 1] } else { 0usize }
}

/// Trait for fuzzy matching text patterns against choices
pub trait FuzzyMatcher {
    /// The score `fuzzy_indices` gives for a choice and a pattern, `None` when
    /// the pattern does not match.
    spec fn spec_fuzzy_score(&self, choice: Seq<char>, pattern: Seq<char>) -> Option<i64>;

    /// The matched indices `fuzzy_indices` returns with the score.
    spec fn spec_fuzzy_indices(&self, choice: Seq<char>, pattern: Seq<char>) -> Seq<usize>;

    /// fuzzy match choice with pattern, and return the score & matched indices of characters
    fn fuzzy_indices(&self, choice: &str, pattern: &str) -> (r: Option<(i64, MatchIndices)>)
        ensures
            match r {
                Some((s, v)) => self.spec_fuzzy_score(choice@, pattern@) == Some(s) && v@ == self.spec_fuzzy_indices(
                    choice@,
                    pattern@,
                ),
                None => self.spec_fuzzy_score(choice@, pattern@) is None,
            },
    ;

    /// The score `fuzzy_match` gives for a choice and a pattern, `None` when
    /// the pattern does not match.
    spec fn spec_fuzzy_match(&self, choice: Seq<char>, pattern: Seq<char>) -> Option<i64>;

    /// fuzzy match choice with pattern, and return the score of matching;
    /// `fuzzy_match_from_indices` gives the score of `fuzzy_indices`
    fn fuzzy_match(&self, choice: &str, pattern: &str) -> (r: Option<i64>)
        ensures
            r == self.spec_fuzzy_match(choice@, pattern@),
    ;

    /// Fuzzy match and return (score, `begin_char_index`, `end_char_index`) without
    /// computing per-character match indices.
    fn fuzzy_match_range(&self, choice: &str, pattern: &str) -> (r: Option<(i64, usize, usize)>)
        default_ensures
            match r {
                Some((s, b, e)) => self.spec_fuzzy_score(choice@, pattern@) == Some(s) && b == first_or_zero(
                    self.spec_fuzzy_indices(choice@, pattern@),
                ) && e == last_or_zero(self.spec_fuzzy_indices(choice@, pattern@)),
                None => self.spec_fuzzy_score(choice@, pattern@) is None,
            },
    {
        match self.fuzzy_indices(choice, pattern) {
            Some((score, indices)) => {
                let begin = if indices.len() > 0 { indices[0] } else { 0 };
                let end = if indices.len() > 0 { indices[indices.len() - 1] } else { 0 };
                proof {
                    assert(begin == first_or_zero(indices@) && end == last_or_zero(indices@));
                }
                Some((score, begin, end))
            },
            None => None,
        }
    }
}

/// The score of `fuzzy_indices`, for a matcher whose `fuzzy_match` has
/// nothing faster to offer.
pub fn fuzzy_match_from_indices<M: FuzzyMatcher + ?Sized>(matcher: &M, choice: &str, pattern: &str) -> (r: Option<i64>)
    ensures
        r == matcher.spec_fuzzy_score(choice@, pattern@),
{
    match matcher.fuzzy_indices(choice, pattern) {
        Some((score, _)) => Some(score),
        None => None,
    }
}

} // verus!
