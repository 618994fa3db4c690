//! The decisions taken before the interface of a run is shown: how many
//! matches to wait for, and whether to show it at all.
use vstd::prelude::*;

verus! {

/// How many matches to wait for before deciding whether to show the
/// interface: one with `exit_0`, two with `select_1`, all of them with
/// `sync`, none otherwise.
pub fn min_items_before_enter(exit_0: bool, select_1: bool, sync: bool) -> (r: usize)
    ensures
        r == if exit_0 {
            1
        } else if select_1 {
            2
        } else if sync {
            usize::MAX as int
        } else {
            0
        },
{
    if exit_0 {
        1
    } else if select_1 {
        2
    } else if sync {
        usize::MAX
    } else {
        0
    }
}

/// Whether to keep waiting for the matcher: fewer matches than wanted, and
/// the matcher or the reader is still at work.
pub fn keep_waiting(matched: usize, min_items: usize, matcher_stopped: bool, reader_done: bool) -> (r: bool)
    ensures
        r == (matched < min_items && (!matcher_stopped || !reader_done)),
{
    matched < min_items && (!matcher_stopped || !reader_done)
}

/// Whether to show the interface once the waiting is over: always when
/// nothing was waited for; otherwise unless exactly one match fewer than
/// wanted came (no match with `exit_0`, a single one with `select_1`).
pub fn enter_after_wait(min_items: usize, sync: bool, matched: usize) -> (r: bool)
    requires
        sync ==> min_items > 0,
    ensures
        r == (!(min_items > 0 || sync) || matched != min_items - 1),
{
    if min_items > 0 || sync {
        matched != min_items - 1
    } else {
        true
    }
}

} // verus!
