//! The regular-expression engine: the query is a pattern of the `regex` crate.
use std::sync::Arc;
use vstd::prelude::*;

use crate::engine::util::{
    find_in_ranges, first_range_match, lemma_whole_range_fits, ranges_or_whole, regex_is_valid, regex_valid,
};
use crate::item::{clamp_i32, spec_build_rank, usize_to_i32_saturating, RankBuilder, RankCriteria};
use crate::text::{push_str, str_byte_len};
use crate::{ranges_view, CaseMatching, MatchEngine, MatchRange, MatchResult, Rank, SpecMatchRange};

verus! {

/// The pattern a regex query is compiled from: the query, made
/// case-insensitive when case is ignored.
pub open spec fn spec_regex_pattern(query: Seq<char>, case: CaseMatching) -> Seq<char> {
    match case {
        CaseMatching::Ignore => seq!['(', '?', 'i', ')'] + query,
        _ => query,
    }
}

/// The range the regex engine finds: with no pattern, `(0, 0)` when there is a
/// range at all; otherwise the first match in the first range holding one.
pub open spec fn regex_scan(pattern: Option<Seq<char>>, text: Seq<char>, ranges: Seq<(usize, usize)>) -> Option<(usize, usize)> {
    if ranges.len() == 0 {
        None
    } else {
        match pattern {
            None => Some((0, 0)),
            Some(p) => first_range_match(p, text, ranges, 0),
        }
    }
}

/// Matches items against a regular expression.
#[derive(Debug)]
pub struct RegexEngine {
    /// The pattern, when it compiles.
    query_regex: Option<String>,
    rank_builder: Arc<RankBuilder>,
}

impl RegexEngine {
    /// A pattern the engine holds is one the `regex` crate accepts.
    #[verifier::type_invariant]
    spec fn pattern_valid(self) -> bool {
        match self.query_regex {
            Some(p) => regex_valid(p@),
            None => true,
        }
    }

    /// The pattern searched for, `None` when every item matches.
    pub closed spec fn spec_pattern(&self) -> Option<Seq<char>> {
        match self.query_regex {
            Some(p) => Some(p@),
            None => None,
        }
    }

    /// Builds the engine for `query`: no pattern (every item matches) when the
    /// pattern does not compile.
    pub fn builder(query: &str, case: CaseMatching) -> (r: Self)
        ensures
            r.spec_pattern() == if regex_valid(spec_regex_pattern(query@, case)) {
                Some(spec_regex_pattern(query@, case))
            } else {
                None
            },
    {
        let mut query_builder = String::new();
        match case {
            CaseMatching::Ignore => push_str(&mut query_builder, "(?i)"),
            CaseMatching::Respect | CaseMatching::Smart => {},
        }
        push_str(&mut query_builder, query);
        proof {
            reveal_strlit("(?i)");
            assert(query_builder@ =~= spec_regex_pattern(query@, case));
        }
        let query_regex = if regex_is_valid(query_builder.as_str()) {
            Some(query_builder)
        } else {
            None
        };
        RegexEngine { query_regex, rank_builder: Arc::new(RankBuilder::default()) }
    }

    /// The criteria of the rank builder the engine ranks with.
    pub closed spec fn spec_rank_criteria(&self) -> Seq<RankCriteria> {
        self.rank_builder.spec_criteria()
    }

    /// The engine ranking with `rank_builder` instead.
    pub fn rank_builder(self, rank_builder: Arc<RankBuilder>) -> (r: Self)
        ensures
            r.spec_pattern() == self.spec_pattern(),
            r.spec_rank_criteria() == rank_builder.spec_criteria(),
    {
        proof {
            use_type_invariant(&self);
        }
        RegexEngine { rank_builder, ..self }
    }

    pub fn build(self) -> (r: Self)
        ensures
            r.spec_pattern() == self.spec_pattern(),
    {
        self
    }
}

impl MatchEngine for RegexEngine {
    /// The range found, ranked with its byte length (cut to `i32::MAX`) as
    /// score.
    open spec fn spec_match(&self, text: Seq<char>, ranges: Option<Seq<(usize, usize)>>) -> Option<(Rank, SpecMatchRange)> {
        match regex_scan(self.spec_pattern(), text, ranges_or_whole(text, ranges)) {
            Some((b, e)) => Some((spec_build_rank(clamp_i32(e - b), b, e, text), SpecMatchRange::ByteRange(b, e))),
            None => None,
        }
    }

    fn match_text(&self, text: &str, ranges: Option<&[(usize, usize)]>) -> (r: Option<MatchResult>) {
        let len = str_byte_len(text);
        let whole: Vec<(usize, usize)> = vec![(0, len)];
        let rs: &[(usize, usize)] = match ranges {
            Some(r) => r,
            None => whole.as_slice(),
        };
        proof {
            use_type_invariant(self);
            lemma_whole_range_fits(text@);
            assert(ranges_or_whole(text@, ranges_view(ranges)) =~= rs@);
        }
        if rs.len() == 0 {
            return None;
        }
        let (begin, end) = match &self.query_regex {
            None => (0, 0),
            Some(pattern) => match find_in_ranges(pattern.as_str(), text, rs) {
                Some(m) => m,
                None => return None,
            },
        };
        let score = usize_to_i32_saturating(end - begin);
        Some(
            MatchResult {
                rank: self.rank_builder.build_rank(score, begin, end, text),
                matched_range: MatchRange::ByteRange(begin, end),
            },
        )
    }

    open spec fn spec_describe(&self) -> Seq<char> {
        "(Regex: "@ + match self.spec_pattern() {
            Some(p) => p,
            None => Seq::empty(),
        } + ")"@
    }

    fn describe(&self) -> (r: String) {
        proof {
            reveal_strlit("(Regex: ");
            reveal_strlit(")");
        }
        let mut s = "(Regex: ".to_owned();
        match &self.query_regex {
            Some(p) => push_str(&mut s, p.as_str()),
            None => {},
        }
        push_str(&mut s, ")");
        proof {
            assert(s@ =~= self.spec_describe());
        }
        s
    }
}

} // verus!
