//! Equality and ordering of matched items.
use std::cmp::Ordering;
use vstd::prelude::*;
use vstd::std_specs::cmp::{PartialEqSpecImpl, PartialOrdSpecImpl};

use crate::item::{rank_le, MatchedItem};
use crate::text::{cow_str, str_eq};
use crate::SkimItem;

verus! {

/// How two items order: by sort key, then index.
pub open spec fn rank_ordering_of(a: &MatchedItem, b: &MatchedItem) -> Ordering {
    if a.rank_le(b) && b.rank_le(a) {
        Ordering::Equal
    } else if a.rank_le(b) {
        Ordering::Less
    } else {
        Ordering::Greater
    }
}

fn rank_ordering(a: &MatchedItem, b: &MatchedItem) -> (r: Ordering)
    ensures
        r == rank_ordering_of(a, b),
{
    let ab = rank_le(a, b);
    let ba = rank_le(b, a);
    if ab && ba {
        Ordering::Equal
    } else if ab {
        Ordering::Less
    } else {
        Ordering::Greater
    }
}

/// Two matched items are equal when they hold the same text at the same index.
impl PartialEq for MatchedItem {
    fn eq(&self, other: &Self) -> (r: bool) {
        let a = self.item.text();
        let b = other.item.text();
        str_eq(cow_str(&a), cow_str(&b)) && self.rank.index == other.rank.index
    }
}

impl PartialEqSpecImpl for MatchedItem {
    open spec fn obeys_eq_spec() -> bool {
        true
    }

    open spec fn eq_spec(&self, other: &Self) -> bool {
        self.item.spec_text() == other.item.spec_text() && self.rank.index == other.rank.index
    }
}

impl Eq for MatchedItem {

}

/// Matched items order by sort key, then by index.
impl PartialOrd for MatchedItem {
    fn partial_cmp(&self, other: &Self) -> (r: Option<Ordering>) {
        Some(rank_ordering(self, other))
    }
}

impl PartialOrdSpecImpl for MatchedItem {
    open spec fn obeys_partial_cmp_spec() -> bool {
        true
    }

    open spec fn partial_cmp_spec(&self, other: &Self) -> Option<Ordering> {
        Some(rank_ordering_of(self, other))
    }
}

} // verus!
