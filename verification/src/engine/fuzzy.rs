//! The fuzzy engine: the query is matched as a fuzzy pattern by one of the
//! fuzzy matchers, in the first matching range where it matches.
use std::sync::Arc;
use vstd::prelude::*;

use crate::engine::split::shifted;
use crate::engine::util::{clamp_offset, lemma_whole_range_fits, range_piece, ranges_or_whole};
use crate::fuzzy_matcher::frizbee::FrizbeeMatcher;
use crate::fuzzy_matcher::fzy::{spec_case_sensitive, FzyCase, FzyMatcher};
use crate::fuzzy_matcher::{FuzzyMatcher, MatchIndices};
use crate::item::{spec_build_rank, RankBuilder, RankCriteria};
use crate::text::{char_byte_offsets, push_str, str_byte_len, str_to_chars, unicode_is_uppercase};
use crate::{
    chars_before_byte, count_chars_before, range_fits_clamped, ranges_fit, ranges_view, CaseMatching, MatchEngine,
    MatchRange, MatchResult, Rank, SpecMatchRange, Typos,
};

verus! {

/// Fuzzy matching algorithm to use
#[derive(Debug, Copy, Clone, PartialEq, Eq, Structural)]
pub enum FuzzyAlgorithm {
    /// Fzy matching algorithm, with optional typo tolerance
    Fzy,
    /// Frizbee matching algorithm, typo resistant
    Frizbee,
}

impl Default for FuzzyAlgorithm {
    fn default() -> (r: Self)
        ensures
            r == FuzzyAlgorithm::Fzy,
    {
        FuzzyAlgorithm::Fzy
    }
}

/// The matcher an engine runs.
pub enum EngineMatcher {
    Fzy(FzyMatcher),
    Frizbee(FrizbeeMatcher),
}

impl FuzzyMatcher for EngineMatcher {
    open spec fn spec_fuzzy_score(&self, choice: Seq<char>, pattern: Seq<char>) -> Option<i64> {
        match self {
            EngineMatcher::Fzy(m) => m.spec_fuzzy_score(choice, pattern),
            EngineMatcher::Frizbee(m) => m.spec_fuzzy_score(choice, pattern),
        }
    }

    open spec fn spec_fuzzy_indices(&self, choice: Seq<char>, pattern: Seq<char>) -> Seq<usize> {
        match self {
            EngineMatcher::Fzy(m) => m.spec_fuzzy_indices(choice, pattern),
            EngineMatcher::Frizbee(m) => m.spec_fuzzy_indices(choice, pattern),
        }
    }

    fn fuzzy_indices(&self, choice: &str, pattern: &str) -> (r: Option<(i64, MatchIndices)>) {
        match self {
            EngineMatcher::Fzy(m) => {
                let r = m.fuzzy_indices(choice, pattern);
                assert(self.spec_fuzzy_indices(choice@, pattern@) == m.spec_fuzzy_indices(choice@, pattern@));
                assert(self.spec_fuzzy_score(choice@, pattern@) == m.spec_fuzzy_score(choice@, pattern@));
                r
            },
            EngineMatcher::Frizbee(m) => m.fuzzy_indices(choice, pattern),
        }
    }

    open spec fn spec_fuzzy_match(&self, choice: Seq<char>, pattern: Seq<char>) -> Option<i64> {
        match self {
            EngineMatcher::Fzy(m) => m.spec_fuzzy_match(choice, pattern),
            EngineMatcher::Frizbee(m) => m.spec_fuzzy_match(choice, pattern),
        }
    }

    fn fuzzy_match(&self, choice: &str, pattern: &str) -> (r: Option<i64>) {
        match self {
            EngineMatcher::Fzy(m) => m.fuzzy_match(choice, pattern),
            EngineMatcher::Frizbee(m) => m.fuzzy_match(choice, pattern),
        }
    }
}

//------------------------------------------------------------------------------
// Fuzzy engine

/// Builds a fuzzy engine.
pub struct FuzzyEngineBuilder {
    query: String,
    case: CaseMatching,
    algorithm: FuzzyAlgorithm,
    rank_builder: Arc<RankBuilder>,
    /// Typo tolerance: none, a quarter of the query length, or a fixed count.
    typos: Typos,
    /// When true, prefer the last (rightmost) occurrence on tied scores.
    last_match: bool,
}

impl Default for FuzzyEngineBuilder {
    fn default() -> (r: Self)
        ensures
            r.spec_query() == Seq::<char>::empty(),
            r.spec_case() == CaseMatching::Smart,
            r.spec_algorithm() == FuzzyAlgorithm::Fzy,
            r.spec_typos() == Typos::Disabled,
    {
        FuzzyEngineBuilder {
            query: String::new(),
            case: CaseMatching::Smart,
            algorithm: FuzzyAlgorithm::Fzy,
            rank_builder: Arc::new(RankBuilder::default()),
            typos: Typos::Disabled,
            last_match: false,
        }
    }
}

/// The typo limit a query gets: none when typos are disabled, a quarter of
/// its length (in characters) in smart mode, else the fixed count.
pub open spec fn spec_effective_max_typos(typos: Typos, query: Seq<char>) -> Option<usize> {
    match typos {
        Typos::Disabled => None,
        Typos::Smart => Some((query.len() / 4) as usize),
        Typos::Fixed(n) => Some(n),
    }
}

/// The case mode of the fzy matcher for a case setting.
pub open spec fn fzy_case_of(case: CaseMatching) -> FzyCase {
    match case {
        CaseMatching::Respect => FzyCase::Respect,
        CaseMatching::Ignore => FzyCase::Ignore,
        CaseMatching::Smart => FzyCase::Smart,
    }
}

/// The case mode an engine is built with governs its fzy matcher as the mode
/// says: `Respect` always compares case, `Ignore` never does, and `Smart`
/// compares case exactly when the query holds an uppercase character.
pub proof fn lemma_fzy_engine_case(case: CaseMatching, query: Seq<char>)
    ensures
        case == CaseMatching::Respect ==> spec_case_sensitive(fzy_case_of(case), query),
        case == CaseMatching::Ignore ==> !spec_case_sensitive(fzy_case_of(case), query),
        case == CaseMatching::Smart ==> (spec_case_sensitive(fzy_case_of(case), query) <==> exists|k: int|
            0 <= k < query.len() && unicode_is_uppercase(#[trigger] query[k])),
{
}

impl FuzzyEngineBuilder {
    pub closed spec fn spec_query(&self) -> Seq<char> {
        self.query@
    }

    pub closed spec fn spec_case(&self) -> CaseMatching {
        self.case
    }

    pub closed spec fn spec_algorithm(&self) -> FuzzyAlgorithm {
        self.algorithm
    }

    pub closed spec fn spec_typos(&self) -> Typos {
        self.typos
    }

    pub closed spec fn spec_last_match(&self) -> bool {
        self.last_match
    }

    pub fn query(self, query: &str) -> (r: Self)
        ensures
            r.spec_query() == query@,
            r.spec_case() == self.spec_case(),
            r.spec_algorithm() == self.spec_algorithm(),
            r.spec_typos() == self.spec_typos(),
    {
        FuzzyEngineBuilder { query: query.to_owned(), ..self }
    }

    pub fn case(self, case: CaseMatching) -> (r: Self)
        ensures
            r.spec_query() == self.spec_query(),
            r.spec_case() == case,
            r.spec_algorithm() == self.spec_algorithm(),
            r.spec_typos() == self.spec_typos(),
    {
        FuzzyEngineBuilder { case, ..self }
    }

    pub fn algorithm(self, algorithm: FuzzyAlgorithm) -> (r: Self)
        ensures
            r.spec_query() == self.spec_query(),
            r.spec_case() == self.spec_case(),
            r.spec_algorithm() == algorithm,
            r.spec_typos() == self.spec_typos(),
    {
        FuzzyEngineBuilder { algorithm, ..self }
    }

    /// The criteria of the rank builder the engine will rank with.
    pub closed spec fn spec_rank_criteria(&self) -> Seq<RankCriteria> {
        self.rank_builder.spec_criteria()
    }

    /// The builder with `rank_builder` for the engine to rank with.
    pub fn rank_builder(self, rank_builder: Arc<RankBuilder>) -> (r: Self)
        ensures
            r.spec_query() == self.spec_query(),
            r.spec_case() == self.spec_case(),
            r.spec_algorithm() == self.spec_algorithm(),
            r.spec_typos() == self.spec_typos(),
            r.spec_rank_criteria() == rank_builder.spec_criteria(),
    {
        FuzzyEngineBuilder { rank_builder, ..self }
    }

    pub fn typos(self, typos: Typos) -> (r: Self)
        ensures
            r.spec_query() == self.spec_query(),
            r.spec_case() == self.spec_case(),
            r.spec_algorithm() == self.spec_algorithm(),
            r.spec_typos() == typos,
    {
        FuzzyEngineBuilder { typos, ..self }
    }

    /// Kept for compatibility: the engine matches the same either way.
    pub fn filter_mode(self, _filter_mode: bool) -> (r: Self)
        ensures
            r == self,
    {
        self
    }

    pub fn last_match(self, last_match: bool) -> (r: Self)
        ensures
            r.spec_query() == self.spec_query(),
            r.spec_case() == self.spec_case(),
            r.spec_algorithm() == self.spec_algorithm(),
            r.spec_typos() == self.spec_typos(),
            r.spec_last_match() == last_match,
    {
        FuzzyEngineBuilder { last_match, ..self }
    }

    /// The typo limit for the query: `None` when disabled, a quarter of the
    /// query length in smart mode, else the fixed count.
    pub fn effective_max_typos(&self) -> (r: Option<usize>)
        ensures
            r == spec_effective_max_typos(self.spec_typos(), self.spec_query()),
    {
        match self.typos {
            Typos::Disabled => None,
            Typos::Smart => Some(str_to_chars(self.query.as_str()).len() / 4),
            Typos::Fixed(n) => Some(n),
        }
    }

    /// Builds the engine with the chosen algorithm, case mode and typo limit.
    pub fn build(self) -> (r: FuzzyEngine)
        ensures
            r.spec_query() == self.spec_query(),
            r.spec_matcher() == match self.spec_algorithm() {
                FuzzyAlgorithm::Fzy => MatcherModel::Fzy(
                    fzy_case_of(self.spec_case()),
                    spec_effective_max_typos(self.spec_typos(), self.spec_query()),
                ),
                FuzzyAlgorithm::Frizbee => MatcherModel::Frizbee(
                    self.spec_case(),
                    frizbee_typos(spec_effective_max_typos(self.spec_typos(), self.spec_query())),
                ),
            },
    {
        let max_typos = self.effective_max_typos();
        let matcher = match self.algorithm {
            FuzzyAlgorithm::Fzy => {
                let m = FzyMatcher::default().max_typos(max_typos);
                let m = match self.case {
                    CaseMatching::Respect => m.respect_case(),
                    CaseMatching::Ignore => m.ignore_case(),
                    CaseMatching::Smart => m.smart_case(),
                };
                EngineMatcher::Fzy(m)
            },
            FuzzyAlgorithm::Frizbee => EngineMatcher::Frizbee(
                FrizbeeMatcher::default().case(self.case).max_typos(max_typos),
            ),
        };
        FuzzyEngine { query: self.query, matcher, rank_builder: self.rank_builder }
    }
}

/// The typo limit frizbee gets: the count cut to `u16::MAX`, 0 when typos
/// are off.
pub open spec fn frizbee_typos(t: Option<usize>) -> Option<u16> {
    Some(
        match t {
            Some(x) => if x <= u16::MAX {
                x as u16
            } else {
                u16::MAX
            },
            None => 0u16,
        },
    )
}

/// The settings of the matcher an engine runs.
pub enum MatcherModel {
    /// Fzy with its case mode and typo limit.
    Fzy(FzyCase, Option<usize>),
    /// Frizbee with its case mode and its typo limit.
    Frizbee(CaseMatching, Option<u16>),
}

/// The fuzzy matching engine
pub struct FuzzyEngine {
    query: String,
    matcher: EngineMatcher,
    rank_builder: Arc<RankBuilder>,
}

/// The score as `i32`, `i32::MAX` when it does not fit.
pub open spec fn score_to_i32(s: i64) -> i32 {
    if i32::MIN <= s <= i32::MAX {
        s as i32
    } else {
        i32::MAX
    }
}

/// What the engine finds in one matching range: with an empty query, score 0
/// and no index; in an empty range, nothing; else the matcher's score and its
/// indices in the range, moved to indices of the whole text.
pub open spec fn fuzzy_range_result(m: EngineMatcher, query: Seq<char>, text: Seq<char>, r: (usize, usize)) -> Option<
    (i64, Seq<usize>),
> {
    let piece = range_piece(text, r);
    if query.len() == 0 {
        Some((0, Seq::empty()))
    } else if piece.len() == 0 {
        None
    } else {
        match m.spec_fuzzy_score(piece, query) {
            Some(s) => Some(
                (
                    s,
                    shifted(
                        m.spec_fuzzy_indices(piece, query),
                        chars_before_byte(text, clamp_offset(r.0, text)) as usize,
                    ),
                ),
            ),
            None => None,
        }
    }
}

/// The result in the first of `ranges`, from the `k`-th on, that has one.
pub open spec fn fuzzy_first(m: EngineMatcher, query: Seq<char>, text: Seq<char>, ranges: Seq<(usize, usize)>, k: int) -> Option<
    (i64, Seq<usize>),
>
    decreases ranges.len() - k,
{
    if k < 0 || k >= ranges.len() {
        None
    } else {
        match fuzzy_range_result(m, query, text, ranges[k]) {
            Some(x) => Some(x),
            None => fuzzy_first(m, query, text, ranges, k + 1),
        }
    }
}

/// The answer for a score and indices: the rank (score cut to `i32`, from the
/// first index to one past the last) and the indices, or an empty character
/// range when there are none.
pub open spec fn fuzzy_answer(score: i64, idx: Seq<usize>, text: Seq<char>) -> (Rank, SpecMatchRange) {
    let begin: usize = if idx.len() > 0 {
        idx[0]
    } else {
        0
    };
    let end: usize = if idx.len() > 0 {
        vstd::wrapping::usize_specs::wrapping_add(idx.last(), 1)
    } else {
        0
    };
    (
        spec_build_rank(score_to_i32(score), begin, end, text),
        if idx.len() == 0 {
            SpecMatchRange::CharRange(0, 0)
        } else {
            SpecMatchRange::Chars(idx)
        },
    )
}

impl FuzzyEngine {
    pub closed spec fn spec_query(&self) -> Seq<char> {
        self.query@
    }

    /// The matcher's settings.
    pub closed spec fn spec_matcher(&self) -> MatcherModel {
        match self.matcher {
            EngineMatcher::Fzy(m) => MatcherModel::Fzy(m.spec_case(), m.spec_max_typos()),
            EngineMatcher::Frizbee(m) => MatcherModel::Frizbee(m.spec_casing(), m.spec_max_typos()),
        }
    }

    /// The matcher the engine runs.
    pub closed spec fn spec_engine_matcher(&self) -> EngineMatcher {
        self.matcher
    }

    /// Returns a default builder for chaining
    pub fn builder() -> (r: FuzzyEngineBuilder)
        ensures
            r.spec_query() == Seq::<char>::empty(),
            r.spec_case() == CaseMatching::Smart,
            r.spec_algorithm() == FuzzyAlgorithm::Fzy,
            r.spec_typos() == Typos::Disabled,
    {
        FuzzyEngineBuilder::default()
    }

    /// The answer for an item text and its matching ranges.
    pub open spec fn spec_match_fuzzy(&self, text: Seq<char>, ranges: Option<Seq<(usize, usize)>>) -> Option<(Rank, SpecMatchRange)> {
        match fuzzy_first(self.spec_engine_matcher(), self.spec_query(), text, ranges_or_whole(text, ranges), 0) {
            Some((s, idx)) => Some(fuzzy_answer(s, idx, text)),
            None => None,
        }
    }
}

fn i64_to_i32_or_max(s: i64) -> (r: i32)
    ensures
        r == score_to_i32(s),
{
    if -2147483648i64 <= s && s <= 2147483647i64 {
        s as i32
    } else {
        i32::MAX
    }
}

impl MatchEngine for FuzzyEngine {
    open spec fn spec_match(&self, text: Seq<char>, ranges: Option<Seq<(usize, usize)>>) -> Option<(Rank, SpecMatchRange)> {
        self.spec_match_fuzzy(text, ranges)
    }

    fn match_text(&self, text: &str, ranges: Option<&[(usize, usize)]>) -> (r: Option<MatchResult>) {
        let len = str_byte_len(text);
        let whole: Vec<(usize, usize)> = vec![(0, len)];
        let rs: &[(usize, usize)] = match ranges {
            Some(r) => r,
            None => whole.as_slice(),
        };
        proof {
            lemma_whole_range_fits(text@);
            assert(ranges_or_whole(text@, ranges_view(ranges)) =~= rs@);
        }
        let offsets = char_byte_offsets(text);
        let query_empty = self.query.as_str().is_empty();
        let ghost m = self.spec_engine_matcher();
        let ghost q = self.spec_query();
        let mut best: Option<(i64, Vec<usize>)> = None;
        let mut k: usize = 0;
        while k < rs.len() && best.is_none()
            invariant
                len == byte_len_of(text@),
                ranges_fit(text@, rs@),
                offsets@.len() == text@.len() + 1,
                forall|p: int| 0 <= p <= text@.len() ==> #[trigger] offsets@[p] == crate::text::byte_len(text@.take(p)),
                m == self.spec_engine_matcher(),
                q == self.spec_query(),
                query_empty == (q.len() == 0),
                k <= rs@.len(),
                best is None ==> fuzzy_first(m, q, text@, rs@, 0) == fuzzy_first(m, q, text@, rs@, k as int),
                best matches Some((s, v)) ==> fuzzy_first(m, q, text@, rs@, 0) == Some((s, v@)),
            decreases rs@.len() - k,
        {
            let start = if rs[k].0 <= len {
                rs[k].0
            } else {
                len
            };
            let end = if rs[k].1 <= len {
                rs[k].1
            } else {
                len
            };
            assert(range_fits_clamped(rs@[k as int], text@));
            let piece = crate::engine::util::byte_substring(text, start, end);
            assert(piece@ == range_piece(text@, rs@[k as int]));
            if query_empty {
                best = Some((0, Vec::new()));
                assert(best->Some_0.1@ =~= Seq::<usize>::empty());
            } else if piece.as_str().is_empty() {
            } else {
                match self.matcher.fuzzy_indices(piece.as_str(), self.query.as_str()) {
                    Some((s, indices)) => {
                        let offset = count_chars_before(&offsets, start, Ghost(text@));
                        let mut moved: MatchIndices = Vec::new();
                        let mut i: usize = 0;
                        while i < indices.len()
                            invariant
                                i <= indices@.len(),
                                moved@ == shifted(indices@, offset).take(i as int),
                            decreases indices@.len() - i,
                        {
                            moved.push(indices[i].wrapping_add(offset));
                            assert(shifted(indices@, offset).take(i + 1) =~= shifted(indices@, offset).take(
                                i as int,
                            ).push(vstd::wrapping::usize_specs::wrapping_add(indices@[i as int], offset)));
                            i += 1;
                        }
                        assert(moved@ =~= shifted(indices@, offset));
                        best = Some((s, moved));
                    },
                    None => {},
                }
            }
            k += 1;
        }
        let (score, indices) = match best {
            Some(b) => b,
            None => return None,
        };
        let begin = if indices.len() > 0 {
            indices[0]
        } else {
            0
        };
        let end_excl = if indices.len() > 0 {
            indices[indices.len() - 1].wrapping_add(1)
        } else {
            0
        };
        let matched_range = if indices.len() == 0 {
            MatchRange::CharRange(0, 0)
        } else {
            MatchRange::Chars(indices)
        };
        Some(
            MatchResult {
                rank: self.rank_builder.build_rank(i64_to_i32_or_max(score), begin, end_excl, text),
                matched_range,
            },
        )
    }

    open spec fn spec_describe(&self) -> Seq<char> {
        "(Fuzzy: "@ + self.spec_query() + ")"@
    }

    fn describe(&self) -> (r: String) {
        proof {
            reveal_strlit("(Fuzzy: ");
            reveal_strlit(")");
        }
        let mut s = "(Fuzzy: ".to_owned();
        push_str(&mut s, self.query.as_str());
        push_str(&mut s, ")");
        s
    }
}

/// The byte length of a text.
pub open spec fn byte_len_of(s: Seq<char>) -> int {
    crate::text::byte_len(s)
}

} // verus!
