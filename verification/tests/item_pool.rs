use std::sync::Arc;

use skim::item::ItemPool;
use skim::SkimItem;

fn item(text: &str) -> Arc<dyn SkimItem> {
    Arc::new(text.to_string())
}

fn texts(items: &[Arc<dyn SkimItem>]) -> Vec<String> {
    items.iter().map(|i| i.text().into_owned()).collect()
}

fn check_append_take_and_counters() {
    let mut pool = ItemPool::<Arc<dyn SkimItem>>::new();
    assert!(pool.is_empty());

    pool.append(vec![item("a"), item("b"), item("c")]);
    assert_eq!(pool.len(), 3);
    assert_eq!(pool.num_not_taken(), 3);
    assert_eq!(pool.num_taken(), 0);

    let taken = pool.take();
    assert_eq!(taken.len(), 3);
    assert_eq!(pool.num_taken(), 3);
    assert_eq!(pool.num_not_taken(), 0);

    // A second take yields nothing new.
    assert!(pool.take().is_empty());
}

fn check_reset_replays_items() {
    let mut pool = ItemPool::<Arc<dyn SkimItem>>::new();
    pool.append(vec![item("a"), item("b")]);
    let _ = pool.take();
    assert_eq!(pool.num_not_taken(), 0);
    pool.reset();
    assert_eq!(pool.num_not_taken(), 2);
    assert_eq!(pool.take().len(), 2);
}

fn check_clear_empties_everything() {
    let mut pool = ItemPool::<Arc<dyn SkimItem>>::new();
    pool.append(vec![item("a"), item("b")]);
    pool.clear();
    assert!(pool.is_empty());
    assert_eq!(pool.num_taken(), 0);
}

fn check_reserves_header_lines() {
    // Two header lines, no reversal.
    let mut pool = ItemPool::<Arc<dyn SkimItem>>::with_options(2, false);
    pool.append(vec![item("h1"), item("h2"), item("body1"), item("body2")]);
    let reserved = pool.reserved();
    assert_eq!(reserved.len(), 2);
    assert_eq!(reserved[0].text(), "h1");
    // Reserved header items are not part of the main matchable pool.
    assert_eq!(pool.len(), 2);
}

fn check_tac_reverses_take_order() {
    let mut pool = ItemPool::<Arc<dyn SkimItem>>::with_options(0, true);
    pool.append(vec![item("a"), item("b"), item("c")]);
    let taken: Vec<String> = texts(&pool.take());
    assert_eq!(taken, vec!["c", "b", "a"]);
}

#[test]
fn item_item_pool_append_take_and_counters() {
    check_append_take_and_counters();
}

#[test]
fn item_item_pool_reset_replays_items() {
    check_reset_replays_items();
}

#[test]
fn item_item_pool_clear_empties_everything() {
    check_clear_empties_everything();
}

#[test]
fn item_item_pool_reserves_header_lines() {
    check_reserves_header_lines();
}

#[test]
fn item_item_pool_tac_reverses_take_order() {
    check_tac_reverses_take_order();
}

#[test]
fn item_tests_item_pool_append_take_and_counters() {
    check_append_take_and_counters();
}

#[test]
fn item_tests_item_pool_reset_replays_items() {
    check_reset_replays_items();
}

#[test]
fn item_tests_item_pool_clear_empties_everything() {
    check_clear_empties_everything();
}

#[test]
fn item_tests_item_pool_reserves_header_lines() {
    check_reserves_header_lines();
}

#[test]
fn item_tests_item_pool_tac_reverses_take_order() {
    check_tac_reverses_take_order();
}

#[test]
fn pool_take_after_take_is_empty() {
    let mut pool = ItemPool::<u64>::new();
    pool.append(vec![1, 2, 3]);
    assert_eq!(pool.take(), vec![1, 2, 3]);
    assert_eq!(pool.take(), Vec::<u64>::new());
}

#[test]
fn pool_reset_replays_in_order() {
    let mut pool = ItemPool::<u64>::new();
    pool.append(vec![4, 5]);
    pool.append(vec![6]);
    let _ = pool.take();
    pool.reset();
    assert_eq!(pool.take(), vec![4, 5, 6]);
}

#[test]
fn pool_append_then_take_hands_out_the_new_items() {
    let mut pool = ItemPool::<u64>::with_options(1, true);
    assert_eq!(pool.append(vec![10, 11, 12]), 2);
    assert_eq!(pool.take(), vec![12, 11]);
    assert_eq!(pool.append(vec![13, 14]), 4);
    assert_eq!(pool.take(), vec![14, 13]);
    assert_eq!(pool.reserved(), vec![10]);
}

#[test]
fn pool_header_fills_across_appends() {
    let mut pool = ItemPool::<u64>::with_options(3, false);
    assert_eq!(pool.append(vec![1, 2]), 0);
    assert_eq!(pool.append(vec![3, 4]), 1);
    assert_eq!(pool.reserved(), vec![1, 2, 3]);
    assert_eq!(pool.take(), vec![4]);
}

#[test]
fn pool_clear_keeps_options() {
    let mut pool = ItemPool::<u64>::with_options(1, false);
    pool.append(vec![1, 2]);
    pool.clear();
    assert!(pool.reserved().is_empty());
    pool.append(vec![7, 8]);
    assert_eq!(pool.reserved(), vec![7]);
    assert_eq!(pool.take(), vec![8]);
}
