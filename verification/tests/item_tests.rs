use std::sync::Arc;

use skim::item::{MatchedItem, RankBuilder, RankCriteria};
use skim::{Rank, SkimItem};

fn item(text: &str) -> Arc<dyn SkimItem> {
    Arc::new(text.to_string())
}

fn matched(text: &str, index: i32, score: i32) -> MatchedItem {
    let rank = Rank {
        score,
        index,
        ..Default::default()
    };
    MatchedItem::new(item(text), rank, None, &RankBuilder::default())
}

#[test]
fn item_tests_rank_builder_inserts_score_criterion() {
    // Score is implicit and prepended when missing.
    let rb = RankBuilder::new(vec![RankCriteria::Begin]);
    assert_eq!(rb.criteria().first(), Some(&RankCriteria::Score));

    // Already present -> not duplicated.
    let rb = RankBuilder::new(vec![RankCriteria::NegScore, RankCriteria::Begin]);
    assert_eq!(rb.criteria().first(), Some(&RankCriteria::NegScore));
    assert!(!rb.criteria().contains(&RankCriteria::Score));
}

#[test]
fn item_tests_build_rank_records_offsets_and_pathname() {
    let rb = RankBuilder::default();
    let rank = rb.build_rank(50, 4, 7, "src/lib/foo.rs");
    assert_eq!(rank.score, 50);
    assert_eq!(rank.begin, 4);
    assert_eq!(rank.end, 7);
    assert_eq!(rank.length, i32::try_from("src/lib/foo.rs".len()).unwrap());
    // path_name_offset points just past the last separator.
    assert_eq!(rank.path_name_offset, i32::try_from("src/lib/".len()).unwrap());
}

#[test]
fn item_tests_sort_key_flips_score_sign() {
    let rank = Rank {
        score: 10,
        begin: 2,
        end: 5,
        ..Default::default()
    };
    let key = rank.sort_key(&[RankCriteria::Score, RankCriteria::Begin, RankCriteria::End]);
    assert_eq!(key[0], -10);
    assert_eq!(key[1], 2);
    assert_eq!(key[2], 5);
}

#[test]
fn item_tests_matched_item_ordering_prefers_higher_score() {
    let high = matched("a", 0, 100);
    let low = matched("b", 1, 10);
    // Higher score sorts first (smaller sort key).
    assert!(high < low);
}

#[test]
fn item_tests_sorted_merge_handles_empty_inputs() {
    let a = vec![matched("a", 0, 10)];
    assert_eq!(MatchedItem::sorted_merge(a.clone(), vec![]).len(), 1);
    assert_eq!(MatchedItem::sorted_merge(vec![], a.clone()).len(), 1);
}

#[test]
fn item_tests_sorted_merge_interleaves_in_order() {
    let existing = vec![matched("a", 0, 100), matched("c", 2, 10)];
    let incoming = vec![matched("b", 1, 50)];
    let merged = MatchedItem::sorted_merge(existing, incoming);
    let scores: Vec<i32> = merged.iter().map(|m| m.rank.score).collect();
    assert_eq!(scores, vec![100, 50, 10]);
}

#[test]
fn sorted_merge_prepends_when_incoming_all_better() {
    // Incoming all rank ahead of existing → fast prepend path.
    let existing = vec![matched("c", 2, 10)];
    let incoming = vec![matched("a", 0, 100), matched("b", 1, 50)];
    let merged = MatchedItem::sorted_merge(existing, incoming);
    let scores: Vec<i32> = merged.iter().map(|m| m.rank.score).collect();
    assert_eq!(scores, vec![100, 50, 10]);
}

#[test]
fn sorted_merge_appends_when_existing_all_better() {
    // Existing all rank ahead of incoming → fast append path (existing.last() <= incoming.first()).
    let existing = vec![matched("a", 0, 100), matched("b", 1, 50)];
    let incoming = vec![matched("c", 2, 10)];
    let merged = MatchedItem::sorted_merge(existing, incoming);
    let scores: Vec<i32> = merged.iter().map(|m| m.rank.score).collect();
    assert_eq!(scores, vec![100, 50, 10]);
}

#[test]
fn sorted_merge_drains_incoming_tail() {
    // Interleave so the merge loop runs and `existing` exhausts first,
    // leaving an incoming tail to drain via the (None, _) arm.
    let existing = vec![matched("a", 0, 100), matched("c", 2, 40)];
    let incoming = vec![matched("b", 1, 50), matched("d", 3, 10)];
    let merged = MatchedItem::sorted_merge(existing, incoming);
    let scores: Vec<i32> = merged.iter().map(|m| m.rank.score).collect();
    assert_eq!(scores, vec![100, 50, 40, 10]);
}

#[test]
fn item_tests_merge_into_sorted_small_insert() {
    let mut existing = vec![matched("a", 0, 100), matched("c", 2, 10)];
    MatchedItem::merge_into_sorted(&mut existing, vec![matched("b", 1, 50)]);
    let scores: Vec<i32> = existing.iter().map(|m| m.rank.score).collect();
    assert_eq!(scores, vec![100, 50, 10]);
}

#[test]
fn item_tests_merge_into_sorted_large_uses_backwards_merge() {
    // Force the > SMALL_INSERT_THRESHOLD branch with interleaving order.
    let mut existing: Vec<MatchedItem> = (0i32..300).map(|i| matched("x", i, 1000 - i * 2)).collect();
    let incoming: Vec<MatchedItem> = (0i32..300).map(|i| matched("y", 1000 + i, 1000 - i * 2 - 1)).collect();
    let total = existing.len() + incoming.len();
    MatchedItem::merge_into_sorted(&mut existing, incoming);
    assert_eq!(existing.len(), total);
    // Result must be sorted ascending by sort key.
    assert!(existing.windows(2).all(|w| w[0] <= w[1]));
}

#[test]
fn merge_into_sorted_large_with_incoming_holding_best() {
    // >256 incoming forces the backwards in-place merge. Give incoming the
    // highest scores so `existing` exhausts first, leaving an incoming run
    // that is block-copied to the front (the `bi > 0` branch).
    let mut existing: Vec<MatchedItem> = (0i32..300).map(|i| matched("x", i, 500 - i * 2)).collect();
    let incoming: Vec<MatchedItem> = (0i32..300).map(|i| matched("y", 1000 + i, 2000 - i * 2)).collect();
    let total = existing.len() + incoming.len();
    MatchedItem::merge_into_sorted(&mut existing, incoming);
    assert_eq!(existing.len(), total);
    assert!(existing.windows(2).all(|w| w[0] <= w[1]));
    // The top-scoring item came from the incoming batch.
    assert_eq!(existing[0].rank.score, 2000);
}
