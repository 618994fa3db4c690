use std::sync::Arc;

use skim::item::{MatchedItem, RankBuilder, RankCriteria};
use skim::{Rank, SkimItem};

fn item(text: &str) -> Arc<dyn SkimItem> {
    Arc::new(text.to_string())
}

fn matched(text: &str, index: i32, score: i32) -> MatchedItem {
    let rank = Rank {
        score,
        index,
        ..Default::default()
    };
    MatchedItem::new(item(text), rank, None, &RankBuilder::default())
}

#[test]
fn item_rank_builder_inserts_score_criterion() {
    // Score is implicit and prepended when missing.
    let rb = RankBuilder::new(vec![RankCriteria::Begin]);
    assert_eq!(rb.criteria().first(), Some(&RankCriteria::Score));

    // Already present -> not duplicated.
    let rb = RankBuilder::new(vec![RankCriteria::NegScore, RankCriteria::Begin]);
    assert_eq!(rb.criteria().first(), Some(&RankCriteria::NegScore));
    assert!(!rb.criteria().contains(&RankCriteria::Score));
}

#[test]
fn item_build_rank_records_offsets_and_pathname() {
    let rb = RankBuilder::default();
    let rank = rb.build_rank(50, 4, 7, "src/lib/foo.rs");
    assert_eq!(rank.score, 50);
    assert_eq!(rank.begin, 4);
    assert_eq!(rank.end, 7);
    assert_eq!(rank.length, i32::try_from("src/lib/foo.rs".len()).unwrap());
    // path_name_offset points just past the last separator.
    assert_eq!(rank.path_name_offset, i32::try_from("src/lib/".len()).unwrap());
}

#[test]
fn item_sort_key_flips_score_sign() {
    let rank = Rank {
        score: 10,
        begin: 2,
        end: 5,
        ..Default::default()
    };
    let key = rank.sort_key(&[RankCriteria::Score, RankCriteria::Begin, RankCriteria::End]);
    assert_eq!(key[0], -10);
    assert_eq!(key[1], 2);
    assert_eq!(key[2], 5);
}

#[test]
fn item_matched_item_ordering_prefers_higher_score() {
    let high = matched("a", 0, 100);
    let low = matched("b", 1, 10);
    // Higher score sorts first (smaller sort key).
    assert!(high < low);
}

#[test]
fn item_sorted_merge_handles_empty_inputs() {
    let a = vec![matched("a", 0, 10)];
    assert_eq!(MatchedItem::sorted_merge(a.clone(), vec![]).len(), 1);
    assert_eq!(MatchedItem::sorted_merge(vec![], a.clone()).len(), 1);
}

#[test]
fn item_sorted_merge_interleaves_in_order() {
    let existing = vec![matched("a", 0, 100), matched("c", 2, 10)];
    let incoming = vec![matched("b", 1, 50)];
    let merged = MatchedItem::sorted_merge(existing, incoming);
    let scores: Vec<i32> = merged.iter().map(|m| m.rank.score).collect();
    assert_eq!(scores, vec![100, 50, 10]);
}

#[test]
fn item_merge_into_sorted_small_insert() {
    let mut existing = vec![matched("a", 0, 100), matched("c", 2, 10)];
    MatchedItem::merge_into_sorted(&mut existing, vec![matched("b", 1, 50)]);
    let scores: Vec<i32> = existing.iter().map(|m| m.rank.score).collect();
    assert_eq!(scores, vec![100, 50, 10]);
}

#[test]
fn item_merge_into_sorted_large_uses_backwards_merge() {
    // Force the > SMALL_INSERT_THRESHOLD branch with interleaving order.
    let mut existing: Vec<MatchedItem> = (0i32..300).map(|i| matched("x", i, 1000 - i * 2)).collect();
    let incoming: Vec<MatchedItem> = (0i32..300).map(|i| matched("y", 1000 + i, 1000 - i * 2 - 1)).collect();
    let total = existing.len() + incoming.len();
    MatchedItem::merge_into_sorted(&mut existing, incoming);
    assert_eq!(existing.len(), total);
    // Result must be sorted ascending by sort key.
    assert!(existing.windows(2).all(|w| w[0] <= w[1]));
}

#[test]
fn item_merge_into_sorted_empty_batch_keeps_tied_order() {
    let mut existing = vec![matched("first", 3, 10), matched("second", 3, 10), matched("third", 3, 10)];
    MatchedItem::merge_into_sorted(&mut existing, vec![]);
    let texts: Vec<String> = existing.iter().map(|m| m.item.text().to_string()).collect();
    assert_eq!(texts, vec!["first", "second", "third"]);
}

#[test]
fn item_sorted_merge_empty_side_keeps_tied_order() {
    let a = vec![matched("first", 3, 10), matched("second", 3, 10)];
    let left: Vec<String> = MatchedItem::sorted_merge(a.clone(), vec![]).iter().map(|m| m.item.text().to_string()).collect();
    let right: Vec<String> = MatchedItem::sorted_merge(vec![], a).iter().map(|m| m.item.text().to_string()).collect();
    assert_eq!(left, vec!["first", "second"]);
    assert_eq!(right, vec!["first", "second"]);
}
