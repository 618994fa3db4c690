use skim::session::{enter_after_wait, keep_waiting, min_items_before_enter};

#[test]
fn min_items_follow_the_flags() {
    assert_eq!(min_items_before_enter(true, true, true), 1);
    assert_eq!(min_items_before_enter(false, true, true), 2);
    assert_eq!(min_items_before_enter(false, false, true), usize::MAX);
    assert_eq!(min_items_before_enter(false, false, false), 0);
}

#[test]
fn exit_0_skips_the_interface_without_matches() {
    let min = min_items_before_enter(true, false, false);
    assert!(!enter_after_wait(min, false, 0));
    assert!(enter_after_wait(min, false, 1));
}

#[test]
fn select_1_skips_the_interface_on_a_single_match() {
    let min = min_items_before_enter(false, true, false);
    assert!(!enter_after_wait(min, false, 1));
    assert!(enter_after_wait(min, false, 2));
    assert!(enter_after_wait(min, false, 0));
}

#[test]
fn sync_enters_once_everything_is_matched() {
    let min = min_items_before_enter(false, false, true);
    assert!(enter_after_wait(min, true, 3));
    assert!(!keep_waiting(3, min, true, true));
    assert!(keep_waiting(3, min, false, true));
    assert!(keep_waiting(3, min, true, false));
}

#[test]
fn nothing_to_wait_for_enters_directly() {
    assert!(enter_after_wait(0, false, 0));
    assert!(!keep_waiting(0, 0, false, false));
}
