//! Matcher using the `frizbee` crate, the one `blink.cmp` uses in neovim.
use vstd::prelude::*;

use crate::fuzzy_matcher::{FuzzyMatcher, MatchIndices, ScoreType};
use crate::CaseMatching;

verus! {

/// The score `frizbee::Matcher::match_one` gives `choice` for a matcher built
/// from `pattern` and a configuration holding `max_typos` and `casing` (every
/// other setting at its default); `None` when it does not match.
pub uninterp spec fn frizbee_score(
    pattern: Seq<char>,
    choice: Seq<char>,
    max_typos: Option<u16>,
    casing: CaseMatching,
) -> Option<u16>;

/// What `frizbee::Matcher::match_one_indices` gives for the same inputs: the
/// score and the matched byte indices as frizbee lists them.
pub uninterp spec fn frizbee_hit(
    pattern: Seq<char>,
    choice: Seq<char>,
    max_typos: Option<u16>,
    casing: CaseMatching,
) -> Option<(u16, Seq<u32>)>;

/// Calls `frizbee::Matcher::match_one` on a matcher for `pattern` whose
/// configuration is frizbee's default with `max_typos` and `casing` set.
/// Claimed: the result is `frizbee_score` of the arguments.
#[verifier::external_body]
fn frizbee_match_one(pattern: &str, choice: &str, max_typos: Option<u16>, casing: CaseMatching) -> (r: Option<u16>)
    ensures
        r == frizbee_score(pattern@, choice@, max_typos, casing),
{
    let casing = match casing {
        CaseMatching::Respect => frizbee::CaseMatching::Respect,
        CaseMatching::Ignore => frizbee::CaseMatching::Ignore,
        CaseMatching::Smart => frizbee::CaseMatching::Smart,
    };
    let config = frizbee::Config { max_typos, casing, ..frizbee::Config::default() };
    frizbee::Matcher::new(pattern, &config).match_one(choice, 0).map(|hit| hit.score)
}

/// Calls `frizbee::Matcher::match_one_indices` on a matcher for `pattern`
/// whose configuration is frizbee's default with `max_typos` and `casing` set.
/// Claimed: the result, as (score, indices), is `frizbee_hit` of the arguments.
#[verifier::external_body]
fn frizbee_match_one_indices(
    pattern: &str,
    choice: &str,
    max_typos: Option<u16>,
    casing: CaseMatching,
) -> (r: Option<(u16, Vec<u32>)>)
    ensures
        match r {
            Some((s, v)) => frizbee_hit(pattern@, choice@, max_typos, casing) == Some((s, v@)),
            None => frizbee_hit(pattern@, choice@, max_typos, casing) is None,
        },
{
    let casing = match casing {
        CaseMatching::Respect => frizbee::CaseMatching::Respect,
        CaseMatching::Ignore => frizbee::CaseMatching::Ignore,
        CaseMatching::Smart => frizbee::CaseMatching::Smart,
    };
    let config = frizbee::Config { max_typos, casing, ..frizbee::Config::default() };
    frizbee::Matcher::new(pattern, &config).match_one_indices(choice, 0).map(|hit| (hit.score, hit.indices))
}

/// `v` in reverse order, widened to `usize`.
pub open spec fn reversed_indices(v: Seq<u32>) -> Seq<usize> {
    Seq::new(v.len(), |k: int| v[v.len() - 1 - k] as usize)
}

/// Turns a frizbee hit into a score and matched indices: frizbee lists the
/// indices last first, so they are reversed.
pub fn indices_from_hit(hit: Option<(u16, Vec<u32>)>) -> (r: Option<(ScoreType, MatchIndices)>)
    ensures
        match hit {
            Some((s, v)) => r matches Some((rs, rv)) && rs == s as i64 && rv@ == reversed_indices(v@),
            None => r is None,
        },
{
    match hit {
        Some((score, indices)) => {
            let n = indices.len();
            let mut out: Vec<usize> = Vec::new();
            let mut k: usize = 0;
            while k < n
                invariant
                    n == indices@.len(),
                    k <= n,
                    out@.len() == k,
                    forall|q: int| 0 <= q < k ==> #[trigger] out@[q] == indices@[n - 1 - q] as usize,
                decreases n - k,
            {
                out.push(indices[n - 1 - k] as usize);
                k += 1;
            }
            proof {
                assert(out@ =~= reversed_indices(indices@));
            }
            Some((score as i64, out))
        },
        None => None,
    }
}

/// Matcher using frizbee.
pub struct FrizbeeMatcher {
    max_typos: Option<u16>,
    casing: CaseMatching,
}

impl Default for FrizbeeMatcher {
    fn default() -> (r: Self)
        ensures
            r.spec_max_typos() == Some(0u16),
            r.spec_casing() == CaseMatching::Respect,
    {
        FrizbeeMatcher { max_typos: Some(0), casing: CaseMatching::Respect }
    }
}

impl FrizbeeMatcher {
    /// The typo limit handed to frizbee.
    pub closed spec fn spec_max_typos(&self) -> Option<u16> {
        self.max_typos
    }

    /// The case mode handed to frizbee.
    pub closed spec fn spec_casing(&self) -> CaseMatching {
        self.casing
    }

    /// Set the max typos to use: `None` allows none, larger counts than
    /// `u16::MAX` are cut to it.
    pub fn max_typos(self, typos: Option<usize>) -> (r: Self)
        ensures
            r.spec_max_typos() == Some(
                match typos {
                    Some(x) => if x <= u16::MAX {
                        x as u16
                    } else {
                        u16::MAX
                    },
                    None => 0u16,
                },
            ),
            r.spec_casing() == self.spec_casing(),
    {
        let t: u16 = match typos {
            Some(x) => if x <= 65535usize {
                x as u16
            } else {
                u16::MAX
            },
            None => 0,
        };
        FrizbeeMatcher { max_typos: Some(t), casing: self.casing }
    }

    /// Set the case matching strategy
    pub fn case(self, case: CaseMatching) -> (r: Self)
        ensures
            r.spec_casing() == case,
            r.spec_max_typos() == self.spec_max_typos(),
    {
        FrizbeeMatcher { max_typos: self.max_typos, casing: case }
    }
}

impl FuzzyMatcher for FrizbeeMatcher {
    open spec fn spec_fuzzy_score(&self, choice: Seq<char>, pattern: Seq<char>) -> Option<i64> {
        match frizbee_hit(pattern, choice, self.spec_max_typos(), self.spec_casing()) {
            Some((s, _v)) => Some(s as i64),
            None => None,
        }
    }

    open spec fn spec_fuzzy_indices(&self, choice: Seq<char>, pattern: Seq<char>) -> Seq<usize> {
        match frizbee_hit(pattern, choice, self.spec_max_typos(), self.spec_casing()) {
            Some((_s, v)) => reversed_indices(v),
            None => Seq::empty(),
        }
    }

    fn fuzzy_indices(&self, choice: &str, pattern: &str) -> (r: Option<(ScoreType, MatchIndices)>) {
        indices_from_hit(frizbee_match_one_indices(pattern, choice, self.max_typos, self.casing))
    }

    open spec fn spec_fuzzy_match(&self, choice: Seq<char>, pattern: Seq<char>) -> Option<i64> {
        match frizbee_score(pattern, choice, self.spec_max_typos(), self.spec_casing()) {
            Some(s) => Some(s as i64),
            None => None,
        }
    }

    fn fuzzy_match(&self, choice: &str, pattern: &str) -> (r: Option<ScoreType>)
        ensures
            match frizbee_score(pattern@, choice@, self.spec_max_typos(), self.spec_casing()) {
                Some(s) => r == Some(s as i64),
                None => r is None,
            },
    {
        match frizbee_match_one(pattern, choice, self.max_typos, self.casing) {
            Some(s) => Some(s as i64),
            None => None,
        }
    }
}

} // verus!
