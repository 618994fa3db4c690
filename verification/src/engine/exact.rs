//! The exact engine: the query must occur literally in the item (optionally
//! at its start or end), or, inverted, must not occur.
use std::sync::Arc;
use vstd::prelude::*;

use crate::engine::util::{
    contains_upper, find_in_ranges, first_range_match, lemma_whole_range_fits, ranges_or_whole, regex_escape,
    regex_is_valid, regex_valid, spec_contains_upper, spec_regex_escape,
};
use crate::item::{spec_build_rank, RankBuilder, RankCriteria};
use crate::text::{push_str, str_byte_len};
use crate::{ranges_view, CaseMatching, MatchEngine, MatchRange, MatchResult, Rank, SpecMatchRange};

verus! {

//------------------------------------------------------------------------------
/// How an exact query is matched.
#[derive(Debug, Copy, Clone)]
#[non_exhaustive]
pub struct ExactMatchingParam {
    /// The query must be at the start of the item.
    pub prefix: bool,
    /// The query must be at the end of the item.
    pub postfix: bool,
    /// Items match when the query does not occur.
    pub inverse: bool,
    /// Case sensitivity.
    pub case: CaseMatching,
}

impl Default for ExactMatchingParam {
    fn default() -> (r: Self)
        ensures
            !r.prefix,
            !r.postfix,
            !r.inverse,
            r.case == CaseMatching::Smart,
    {
        ExactMatchingParam { prefix: false, postfix: false, inverse: false, case: CaseMatching::Smart }
    }
}

/// The regular expression an exact query is turned into: case-insensitive
/// unless case is respected (in smart mode: unless the query holds an
/// uppercase character), anchored as asked, with the query escaped.
pub open spec fn spec_exact_pattern(query: Seq<char>, param: ExactMatchingParam) -> Seq<char> {
    let case_sensitive = match param.case {
        CaseMatching::Respect => true,
        CaseMatching::Ignore => false,
        CaseMatching::Smart => spec_contains_upper(query),
    };
    (if case_sensitive { Seq::empty() } else { seq!['(', '?', 'i', ')'] }) + (if param.prefix {
        seq!['^']
    } else {
        Seq::empty()
    }) + spec_regex_escape(query) + (if param.postfix { seq!['$'] } else { Seq::empty() })
}

/// Matches items that contain the query literally.
#[derive(Debug)]
pub struct ExactEngine {
    query: String,
    /// The pattern when the query is not empty and the pattern is valid.
    query_regex: Option<String>,
    rank_builder: Arc<RankBuilder>,
    inverse: bool,
}

/// The range the exact engine finds in `text` on the given ranges. With no
/// pattern, `(0, 0)` when there is a range at all. Otherwise the first match of
/// the pattern in the first range that holds one; inverted, `(0, 0)` when
/// there are ranges and the pattern matches in none of them.
pub open spec fn exact_scan(pattern: Option<Seq<char>>, inverse: bool, text: Seq<char>, ranges: Seq<(usize, usize)>) -> Option<
    (usize, usize),
> {
    if ranges.len() == 0 {
        None
    } else {
        match pattern {
            None => Some((0, 0)),
            Some(p) => {
                let found = first_range_match(p, text, ranges, 0);
                if inverse {
                    if found is Some {
                        None
                    } else {
                        Some((0, 0))
                    }
                } else {
                    found
                }
            },
        }
    }
}

/// What the exact engine answers: the range found, ranked with its byte
/// length as score.
pub open spec fn exact_result(
    pattern: Option<Seq<char>>,
    inverse: bool,
    text: Seq<char>,
    ranges: Option<Seq<(usize, usize)>>,
) -> Option<(Rank, SpecMatchRange)> {
    match exact_scan(pattern, inverse, text, ranges_or_whole(text, ranges)) {
        Some((b, e)) => Some((spec_build_rank((e - b) as i32, b, e, text), SpecMatchRange::ByteRange(b, e))),
        None => None,
    }
}

impl ExactEngine {
    /// A pattern the engine holds is one the `regex` crate accepts.
    #[verifier::type_invariant]
    spec fn pattern_valid(self) -> bool {
        match self.query_regex {
            Some(p) => regex_valid(p@),
            None => true,
        }
    }

    /// The pattern searched for, `None` when every item matches.
    pub closed spec fn spec_pattern(&self) -> Option<Seq<char>> {
        match self.query_regex {
            Some(p) => Some(p@),
            None => None,
        }
    }

    pub closed spec fn spec_inverse(&self) -> bool {
        self.inverse
    }

    /// Builds the engine for `query`: no pattern (every item matches) when the
    /// query is empty or its pattern is not a valid regular expression.
    pub fn builder(query: &str, param: ExactMatchingParam) -> (r: Self)
        ensures
            r.spec_pattern() == if query@.len() == 0 || !regex_valid(spec_exact_pattern(query@, param)) {
                None
            } else {
                Some(spec_exact_pattern(query@, param))
            },
            r.spec_inverse() == param.inverse,
    {
        let case_sensitive = match param.case {
            CaseMatching::Respect => true,
            CaseMatching::Ignore => false,
            CaseMatching::Smart => contains_upper(query),
        };
        let mut query_builder = String::new();
        if !case_sensitive {
            push_str(&mut query_builder, "(?i)");
        }
        if param.prefix {
            push_str(&mut query_builder, "^");
        }
        let escaped = regex_escape(query);
        push_str(&mut query_builder, escaped.as_str());
        if param.postfix {
            push_str(&mut query_builder, "$");
        }
        proof {
            reveal_strlit("(?i)");
            reveal_strlit("^");
            reveal_strlit("$");
            assert(query_builder@ =~= spec_exact_pattern(query@, param));
        }
        let query_chars = crate::text::str_to_chars(query);
        let query_regex = if query_chars.len() == 0 {
            None
        } else if regex_is_valid(query_builder.as_str()) {
            Some(query_builder)
        } else {
            None
        };
        ExactEngine {
            query: query.to_owned(),
            query_regex,
            rank_builder: Arc::new(RankBuilder::default()),
            inverse: param.inverse,
        }
    }

    /// The criteria of the rank builder the engine ranks with.
    pub closed spec fn spec_rank_criteria(&self) -> Seq<RankCriteria> {
        self.rank_builder.spec_criteria()
    }

    /// The engine ranking with `rank_builder` instead.
    pub fn rank_builder(self, rank_builder: Arc<RankBuilder>) -> (r: Self)
        ensures
            r.spec_pattern() == self.spec_pattern(),
            r.spec_inverse() == self.spec_inverse(),
            r.spec_rank_criteria() == rank_builder.spec_criteria(),
    {
        proof {
            use_type_invariant(&self);
        }
        ExactEngine { rank_builder, ..self }
    }

    pub fn build(self) -> (r: Self)
        ensures
            r.spec_pattern() == self.spec_pattern(),
            r.spec_inverse() == self.spec_inverse(),
    {
        self
    }
}

impl MatchEngine for ExactEngine {
    open spec fn spec_match(&self, text: Seq<char>, ranges: Option<Seq<(usize, usize)>>) -> Option<(Rank, SpecMatchRange)> {
        exact_result(self.spec_pattern(), self.spec_inverse(), text, ranges)
    }

    fn match_text(&self, text: &str, ranges: Option<&[(usize, usize)]>) -> (r: Option<MatchResult>) {
        let len = str_byte_len(text);
        let whole: Vec<(usize, usize)> = vec![(0, len)];
        let rs: &[(usize, usize)] = match ranges {
            Some(r) => r,
            None => whole.as_slice(),
        };
        proof {
            use_type_invariant(self);
            lemma_whole_range_fits(text@);
            assert(ranges_or_whole(text@, ranges_view(ranges)) =~= rs@);
        }
        if rs.len() == 0 {
            return None;
        }
        let (begin, end) = match &self.query_regex {
            None => (0, 0),
            Some(pattern) => {
                let found = find_in_ranges(pattern.as_str(), text, rs);
                if self.inverse {
                    if found.is_some() {
                        return None;
                    }
                    (0, 0)
                } else {
                    match found {
                        Some(m) => m,
                        None => return None,
                    }
                }
            },
        };
        let score = #[verifier::truncate] ((end - begin) as i32);
        Some(
            MatchResult {
                rank: self.rank_builder.build_rank(score, begin, end, text),
                matched_range: MatchRange::ByteRange(begin, end),
            },
        )
    }

    open spec fn spec_describe(&self) -> Seq<char> {
        "(Exact|"@ + (if self.spec_inverse() {
            "!"@
        } else {
            Seq::empty()
        }) + match self.spec_pattern() {
            Some(p) => p,
            None => Seq::empty(),
        } + ")"@
    }

    fn describe(&self) -> (r: String) {
        proof {
            reveal_strlit("(Exact|");
            reveal_strlit("!");
            reveal_strlit(")");
        }
        let mut s = "(Exact|".to_owned();
        if self.inverse {
            push_str(&mut s, "!");
        }
        match &self.query_regex {
            Some(p) => push_str(&mut s, p.as_str()),
            None => {},
        }
        push_str(&mut s, ")");
        proof {
            assert(s@ =~= self.spec_describe());
        }
        s
    }
}

/// With a pattern and at least one range to look in, the inverted engine
/// matches an item exactly when the plain one does not.
pub proof fn lemma_inverse_complements(p: Seq<char>, text: Seq<char>, ranges: Seq<(usize, usize)>)
    requires
        ranges.len() > 0,
    ensures
        exact_scan(Some(p), true, text, ranges) is Some <==> exact_scan(Some(p), false, text, ranges) is None,
{
}

} // verus!
