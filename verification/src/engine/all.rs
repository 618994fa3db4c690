//! The engine that matches every item.
use std::sync::Arc;
use vstd::prelude::*;

use crate::item::{spec_build_rank, RankBuilder, RankCriteria};
use crate::{MatchEngine, MatchRange, MatchResult, Rank, SpecMatchRange};

verus! {

/// Matches every item, with an empty range and a rank of score 0.
#[derive(Debug)]
pub struct MatchAllEngine {
    rank_builder: Arc<RankBuilder>,
}

impl MatchAllEngine {
    /// The criteria of the rank builder the engine ranks with.
    pub closed spec fn spec_rank_criteria(&self) -> Seq<RankCriteria> {
        self.rank_builder.spec_criteria()
    }

    /// An engine that ranks with the default criteria.
    pub fn builder() -> (r: Self)
        ensures
            r.spec_rank_criteria() == seq![RankCriteria::Score, RankCriteria::Begin, RankCriteria::End],
    {
        MatchAllEngine { rank_builder: Arc::new(RankBuilder::default()) }
    }

    /// The engine ranking with `rank_builder` instead.
    pub fn rank_builder(self, rank_builder: Arc<RankBuilder>) -> (r: Self)
        ensures
            r.spec_rank_criteria() == rank_builder.spec_criteria(),
    {
        MatchAllEngine { rank_builder }
    }

    pub fn build(self) -> (r: Self)
        ensures
            r == self,
    {
        self
    }
}

impl MatchEngine for MatchAllEngine {
    open spec fn spec_match(&self, text: Seq<char>, ranges: Option<Seq<(usize, usize)>>) -> Option<(Rank, SpecMatchRange)> {
        Some((spec_build_rank(0, 0, 0, text), SpecMatchRange::ByteRange(0, 0)))
    }

    fn match_text(&self, text: &str, ranges: Option<&[(usize, usize)]>) -> (r: Option<MatchResult>) {
        let rank = self.rank_builder.build_rank(0, 0, 0, text);
        proof {
            assert(text@.take(0) =~= Seq::<char>::empty());
            crate::encode_utf8_empty_len();
        }
        Some(MatchResult { rank, matched_range: MatchRange::ByteRange(0, 0) })
    }

    open spec fn spec_describe(&self) -> Seq<char> {
        "Noop"@
    }

    fn describe(&self) -> (r: String) {
        "Noop".to_owned()
    }
}

} // verus!
