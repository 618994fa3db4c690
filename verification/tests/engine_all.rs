use std::sync::Arc;

use skim::engine::all::MatchAllEngine;
use skim::item::RankBuilder;
use skim::{MatchEngine, MatchRange};

#[test]
fn matches_every_item_with_empty_range() {
    let engine = MatchAllEngine::builder().build();
    let result = engine.match_item(&"anything".to_string()).unwrap();
    assert_eq!(result.matched_range, MatchRange::ByteRange(0, 0));
}

#[test]
fn rank_builder_override_is_used() {
    let engine = MatchAllEngine::builder()
        .rank_builder(Arc::new(RankBuilder::default()))
        .build();
    assert!(engine.match_item(&"x".to_string()).is_some());
}

#[test]
fn display_is_noop() {
    let engine = MatchAllEngine::builder().build();
    assert_eq!(engine.describe(), "Noop");
}

#[test]
fn match_all_rank_records_item_length() {
    let engine = MatchAllEngine::builder().build();
    let result = engine.match_item(&"héllo".to_string()).unwrap();
    assert_eq!(result.rank.score, 0);
    assert_eq!(result.rank.begin, 0);
    assert_eq!(result.rank.end, 0);
    assert_eq!(result.rank.length, 6);
}
