//! Ranking of matched items: rank criteria, rank building, sort keys and the
//! merging of sorted result lists.
use std::sync::Arc;
use vstd::prelude::*;

use crate::text::{byte_len, char_byte_offsets, str_byte_len, str_to_chars};
use crate::{MatchRange, Rank, SkimItem};

pub mod order;
pub mod pool;

pub use pool::ItemPool;

verus! {

//------------------------------------------------------------------------------
/// Criteria for ranking and sorting matched items
#[derive(Debug, PartialEq, Eq, Clone, Copy, Structural)]
pub enum RankCriteria {
    /// Sort by match score (lower is better)
    Score,
    /// Sort by match score (higher is better)
    NegScore,
    /// Sort by beginning position of match
    Begin,
    /// Sort by beginning position of match (reversed)
    NegBegin,
    /// Sort by ending position of match
    End,
    /// Sort by ending position of match (reversed)
    NegEnd,
    /// Sort by item length
    Length,
    /// Sort by item length (reversed)
    NegLength,
    /// Sort by item index
    Index,
    /// Sort by item index (reversed)
    NegIndex,
    /// Give a bonus to matches that are after the last path separator (`/` or `\`)
    PathName,
    /// Give a bonus to matches that are after the last path separator (reversed)
    NegPathName,
}

//------------------------------------------------------------------------------
/// Builder for creating rank values based on configurable criteria
#[derive(Debug)]
pub struct RankBuilder {
    criterion: Vec<RankCriteria>,
}

/// The criteria with `Score` put first when neither `Score` nor `NegScore`
/// is among them.
pub open spec fn with_score(c: Seq<RankCriteria>) -> Seq<RankCriteria> {
    if !c.contains(RankCriteria::Score) && !c.contains(RankCriteria::NegScore) {
        seq![RankCriteria::Score] + c
    } else {
        c
    }
}

/// The sequence with every run of equal consecutive elements cut to its first.
pub open spec fn spec_dedup(s: Seq<RankCriteria>) -> Seq<RankCriteria>
    decreases s.len(),
{
    if s.len() == 0 {
        s
    } else {
        let d = spec_dedup(s.drop_last());
        if s.len() >= 2 && s.last() == s[s.len() - 2] {
            d
        } else {
            d.push(s.last())
        }
    }
}

/// Every element of `s` survives `spec_dedup`.
proof fn lemma_dedup_keeps(s: Seq<RankCriteria>, x: RankCriteria)
    requires
        s.contains(x),
    ensures
        spec_dedup(s).contains(x),
    decreases s.len(),
{
    let t = s.drop_last();
    if s.last() == x {
        if s.len() >= 2 && s.last() == s[s.len() - 2] {
            assert(t[t.len() - 1] == x);
            lemma_dedup_keeps(t, x);
        } else {
            assert(spec_dedup(s).last() == x);
        }
    } else {
        let k = choose|k: int| 0 <= k < s.len() && s[k] == x;
        assert(t[k] == x);
        lemma_dedup_keeps(t, x);
        let d = spec_dedup(t);
        let j = choose|j: int| 0 <= j < d.len() && d[j] == x;
        if !(s.len() >= 2 && s.last() == s[s.len() - 2]) {
            assert(spec_dedup(s)[j] == x);
        }
    }
}

/// No element of `spec_dedup(s)` equals the one before it.
proof fn lemma_dedup_no_repeats(s: Seq<RankCriteria>)
    ensures
        forall|k: int| 1 <= k < spec_dedup(s).len() ==> #[trigger] spec_dedup(s)[k] != spec_dedup(s)[k - 1],
        spec_dedup(s).len() > 0 ==> spec_dedup(s).last() == s.last(),
    decreases s.len(),
{
    if s.len() > 0 {
        lemma_dedup_no_repeats(s.drop_last());
    }
}

impl Default for RankBuilder {
    fn default() -> (r: Self)
        ensures
            r.spec_criteria() == seq![RankCriteria::Score, RankCriteria::Begin, RankCriteria::End],
    {
        let mut criterion: Vec<RankCriteria> = Vec::new();
        criterion.push(RankCriteria::Score);
        criterion.push(RankCriteria::Begin);
        criterion.push(RankCriteria::End);
        RankBuilder { criterion }
    }
}

/// Byte offset just past the last path separator (`/` or `\`) of `s`, or 0
/// when there is none; an offset beyond `i32::MAX` is cut to `i32::MAX`.
pub open spec fn spec_path_name_offset(s: Seq<char>) -> i32 {
    match spec_last_separator(s, s.len() as int) {
        Some(k) => if byte_len(s.take(k)) >= i32::MAX {
            i32::MAX
        } else {
            (byte_len(s.take(k)) + 1) as i32
        },
        None => 0,
    }
}

/// Index of the last `/` or `\` among the first `end` characters.
pub open spec fn spec_last_separator(s: Seq<char>, end: int) -> Option<int>
    decreases end,
{
    if end <= 0 || end > s.len() {
        None
    } else if s[end - 1] == '/' || s[end - 1] == '\\' {
        Some(end - 1)
    } else {
        spec_last_separator(s, end - 1)
    }
}

/// The rank `RankBuilder::build_rank` makes of raw match measurements.
pub open spec fn spec_build_rank(score: i32, begin: usize, end: usize, text: Seq<char>) -> Rank {
    Rank {
        score,
        begin: clamp_i32(begin as int),
        end: clamp_i32(end as int),
        length: clamp_i32(byte_len(text)),
        index: 0,
        path_name_offset: spec_path_name_offset(text),
    }
}

/// `x` cut to `i32::MAX`.
pub open spec fn clamp_i32(x: int) -> i32 {
    if x <= i32::MAX {
        x as i32
    } else {
        i32::MAX
    }
}

pub(crate) fn usize_to_i32_saturating(x: usize) -> (r: i32)
    ensures
        r == clamp_i32(x as int),
{
    if x <= 2147483647usize {
        x as i32
    } else {
        i32::MAX
    }
}

impl RankBuilder {
    /// The tiebreak criteria, in priority order.
    pub closed spec fn spec_criteria(&self) -> Seq<RankCriteria> {
        self.criterion@
    }

    /// Creates a new rank builder with the given criteria; `Score` is put
    /// first when no score criterion is given, and repeated consecutive
    /// criteria are dropped.
    pub fn new(criterion: Vec<RankCriteria>) -> (r: Self)
        ensures
            r.spec_criteria() == spec_dedup(with_score(criterion@)),
    {
        let mut criterion = criterion;
        let mut has_score = false;
        let mut k: usize = 0;
        while k < criterion.len()
            invariant
                k <= criterion@.len(),
                has_score == exists|q: int|
                    0 <= q < k && (#[trigger] criterion@[q] == RankCriteria::Score || criterion@[q]
                        == RankCriteria::NegScore),
            decreases criterion@.len() - k,
        {
            if criterion[k] == RankCriteria::Score || criterion[k] == RankCriteria::NegScore {
                has_score = true;
            }
            k += 1;
        }
        let ghost given = criterion@;
        if !has_score {
            proof {
                assert(!given.contains(RankCriteria::Score));
                assert(!given.contains(RankCriteria::NegScore));
            }
            criterion.insert(0, RankCriteria::Score);
            proof {
                assert(criterion@ =~= seq![RankCriteria::Score] + given);
            }
        } else {
            proof {
                let q = choose|q: int|
                    0 <= q < given.len() && (given[q] == RankCriteria::Score || given[q] == RankCriteria::NegScore);
                if given[q] == RankCriteria::Score {
                    assert(given.contains(RankCriteria::Score));
                } else {
                    assert(given.contains(RankCriteria::NegScore));
                }
            }
        }
        let ghost full = criterion@;
        let mut out: Vec<RankCriteria> = Vec::new();
        let mut i: usize = 0;
        while i < criterion.len()
            invariant
                criterion@ == full,
                i <= full.len(),
                out@ == spec_dedup(full.take(i as int)),
            decreases full.len() - i,
        {
            proof {
                assert(full.take(i + 1).drop_last() =~= full.take(i as int));
            }
            if i == 0 || criterion[i] != criterion[i - 1] {
                out.push(criterion[i]);
            }
            i += 1;
        }
        proof {
            assert(full.take(full.len() as int) =~= full);
        }
        RankBuilder { criterion: out }
    }

    /// Returns the tiebreak criteria slice.
    pub fn criteria(&self) -> (r: &[RankCriteria])
        ensures
            r@ == self.spec_criteria(),
    {
        self.criterion.as_slice()
    }

    /// Computes the byte offset of the first character after the last path separator
    /// (`/` or `\`) in `text`.  Returns `0` when no separator is present.
    fn path_name_offset(text: &str) -> (r: i32)
        ensures
            r == spec_path_name_offset(text@),
    {
        let cs = str_to_chars(text);
        let offsets = char_byte_offsets(text);
        let mut e: usize = cs.len();
        while e > 0
            invariant
                cs@ == text@,
                e <= cs@.len(),
                offsets@.len() == text@.len() + 1,
                forall|k: int| 0 <= k <= text@.len() ==> #[trigger] offsets@[k] == byte_len(text@.take(k)),
                spec_last_separator(text@, text@.len() as int) == spec_last_separator(text@, e as int),
            decreases e,
        {
            let c = cs[e - 1];
            if c == '/' || c == '\\' {
                let pos = offsets[e - 1];
                if pos >= 2147483647usize {
                    return i32::MAX;
                }
                return (pos + 1) as i32;
            }
            e -= 1;
        }
        0
    }

    /// Builds a `Rank` from raw match measurements; positions and the byte
    /// length beyond `i32::MAX` are cut to `i32::MAX`, and the index is 0
    /// (it is overridden later).
    pub fn build_rank(&self, score: i32, begin: usize, end: usize, item_text: &str) -> (r: Rank)
        ensures
            r == spec_build_rank(score, begin, end, item_text@),
    {
        Rank {
            score,
            begin: usize_to_i32_saturating(begin),
            end: usize_to_i32_saturating(end),
            length: usize_to_i32_saturating(str_byte_len(item_text)),
            index: 0,
            path_name_offset: Self::path_name_offset(item_text),
        }
    }
}

/// The ranking criteria a builder made by `RankBuilder::new` uses always
/// include a score criterion, and never repeat one criterion twice in a row.
pub proof fn lemma_rank_builder_has_score(criterion: Seq<RankCriteria>)
    ensures
        spec_dedup(with_score(criterion)).contains(RankCriteria::Score) || spec_dedup(with_score(criterion)).contains(
            RankCriteria::NegScore,
        ),
        forall|k: int|
            1 <= k < spec_dedup(with_score(criterion)).len() ==> #[trigger] spec_dedup(with_score(criterion))[k]
                != spec_dedup(with_score(criterion))[k - 1],
{
    let w = with_score(criterion);
    if !criterion.contains(RankCriteria::Score) && !criterion.contains(RankCriteria::NegScore) {
        assert(w[0] == RankCriteria::Score);
        lemma_dedup_keeps(w, RankCriteria::Score);
    } else if criterion.contains(RankCriteria::Score) {
        lemma_dedup_keeps(w, RankCriteria::Score);
    } else {
        lemma_dedup_keeps(w, RankCriteria::NegScore);
    }
    lemma_dedup_no_repeats(w);
}

//------------------------------------------------------------------------------
/// The key value one criterion gives a rank (lower sorts first).
pub open spec fn crit_value(r: Rank, c: RankCriteria) -> int {
    match c {
        RankCriteria::Score => -r.score,
        RankCriteria::NegScore => r.score as int,
        RankCriteria::Begin => r.begin as int,
        RankCriteria::NegBegin => -r.begin,
        RankCriteria::End => r.end as int,
        RankCriteria::NegEnd => -r.end,
        RankCriteria::Length => r.length as int,
        RankCriteria::NegLength => -r.length,
        RankCriteria::Index => r.index as int,
        RankCriteria::NegIndex => -r.index,
        RankCriteria::PathName => r.path_name_offset - r.begin,
        RankCriteria::NegPathName => r.begin - r.path_name_offset,
    }
}

/// Every criterion's key value of the rank fits in an `i32` (negating
/// `i32::MIN` or subtracting far-apart offsets would overflow).
pub open spec fn rank_keys_fit(r: Rank) -> bool {
    &&& r.score > i32::MIN
    &&& r.begin > i32::MIN
    &&& r.end > i32::MIN
    &&& r.length > i32::MIN
    &&& r.index > i32::MIN
    &&& i32::MIN <= r.path_name_offset - r.begin <= i32::MAX
    &&& i32::MIN <= r.begin - r.path_name_offset <= i32::MAX
}

/// The sort key of a rank: the key values of the first five criteria, 0 for
/// missing ones.
pub open spec fn spec_sort_key(r: Rank, criteria: Seq<RankCriteria>) -> Seq<i32> {
    Seq::new(5, |p: int| if p < criteria.len() { crit_value(r, criteria[p]) as i32 } else { 0i32 })
}

/// Each tiebreak criterion orders ranks as its name says, a smaller key
/// sorting first: `Score` puts the higher score first, `Begin`, `End`,
/// `Length` and `Index` put the smaller measure first, `PathName` the match
/// that begins less far after the last path separator, and each `Neg`
/// criterion reverses its counterpart. The slot holds the measure itself,
/// negated where the larger measure must come first.
pub proof fn lemma_sort_key_orders(r: Rank, s: Rank, c: Seq<RankCriteria>, p: int)
    requires
        rank_keys_fit(r),
        rank_keys_fit(s),
        0 <= p < 5,
        p < c.len(),
    ensures
        c[p] == RankCriteria::Score ==> spec_sort_key(r, c)[p] == -r.score && (spec_sort_key(r, c)[p]
            < spec_sort_key(s, c)[p] <==> r.score > s.score),
        c[p] == RankCriteria::NegScore ==> spec_sort_key(r, c)[p] == r.score && (spec_sort_key(r, c)[p]
            < spec_sort_key(s, c)[p] <==> r.score < s.score),
        c[p] == RankCriteria::Begin ==> spec_sort_key(r, c)[p] == r.begin && (spec_sort_key(r, c)[p]
            < spec_sort_key(s, c)[p] <==> r.begin < s.begin),
        c[p] == RankCriteria::NegBegin ==> spec_sort_key(r, c)[p] == -r.begin && (spec_sort_key(r, c)[p]
            < spec_sort_key(s, c)[p] <==> r.begin > s.begin),
        c[p] == RankCriteria::End ==> spec_sort_key(r, c)[p] == r.end && (spec_sort_key(r, c)[p]
            < spec_sort_key(s, c)[p] <==> r.end < s.end),
        c[p] == RankCriteria::NegEnd ==> spec_sort_key(r, c)[p] == -r.end && (spec_sort_key(r, c)[p]
            < spec_sort_key(s, c)[p] <==> r.end > s.end),
        c[p] == RankCriteria::Length ==> spec_sort_key(r, c)[p] == r.length && (spec_sort_key(r, c)[p]
            < spec_sort_key(s, c)[p] <==> r.length < s.length),
        c[p] == RankCriteria::NegLength ==> spec_sort_key(r, c)[p] == -r.length && (spec_sort_key(r, c)[p]
            < spec_sort_key(s, c)[p] <==> r.length > s.length),
        c[p] == RankCriteria::Index ==> spec_sort_key(r, c)[p] == r.index && (spec_sort_key(r, c)[p]
            < spec_sort_key(s, c)[p] <==> r.index < s.index),
        c[p] == RankCriteria::NegIndex ==> spec_sort_key(r, c)[p] == -r.index && (spec_sort_key(r, c)[p]
            < spec_sort_key(s, c)[p] <==> r.index > s.index),
        c[p] == RankCriteria::PathName ==> spec_sort_key(r, c)[p] == r.path_name_offset - r.begin && (spec_sort_key(
            r,
            c,
        )[p] < spec_sort_key(s, c)[p] <==> r.path_name_offset - r.begin < s.path_name_offset - s.begin),
        c[p] == RankCriteria::NegPathName ==> spec_sort_key(r, c)[p] == r.begin - r.path_name_offset && (
        spec_sort_key(r, c)[p] < spec_sort_key(s, c)[p] <==> r.path_name_offset - r.begin > s.path_name_offset
            - s.begin),
{
}

/// Slots past the given criteria hold 0, so they never tell two ranks apart.
pub proof fn lemma_sort_key_unused_slots(r: Rank, c: Seq<RankCriteria>, p: int)
    requires
        c.len() <= p < 5,
    ensures
        spec_sort_key(r, c)[p] == 0,
{
}

fn crit_value_at(rank: &Rank, criteria: &[RankCriteria], p: usize) -> (v: i32)
    requires
        rank_keys_fit(*rank),
        p < 5,
    ensures
        v == spec_sort_key(*rank, criteria@)[p as int],
{
    if p >= criteria.len() {
        return 0;
    }
    match criteria[p] {
        RankCriteria::Score => -rank.score,
        RankCriteria::NegScore => rank.score,
        RankCriteria::Begin => rank.begin,
        RankCriteria::NegBegin => -rank.begin,
        RankCriteria::End => rank.end,
        RankCriteria::NegEnd => -rank.end,
        RankCriteria::Length => rank.length,
        RankCriteria::NegLength => -rank.length,
        RankCriteria::Index => rank.index,
        RankCriteria::NegIndex => -rank.index,
        RankCriteria::PathName => rank.path_name_offset - rank.begin,
        RankCriteria::NegPathName => rank.begin - rank.path_name_offset,
    }
}

impl Rank {
    /// Computes the ordered sort key for this rank given a slice of tiebreak
    /// criteria: each of the first five criteria gives one slot, sign-flipped
    /// where needed so that the best match sorts first.
    pub fn sort_key(&self, criteria: &[RankCriteria]) -> (key: [i32; 5])
        requires
            rank_keys_fit(*self),
        ensures
            key@ == spec_sort_key(*self, criteria@),
    {
        let key = [
            crit_value_at(self, criteria, 0),
            crit_value_at(self, criteria, 1),
            crit_value_at(self, criteria, 2),
            crit_value_at(self, criteria, 3),
            crit_value_at(self, criteria, 4),
        ];
        assert(key@ =~= spec_sort_key(*self, criteria@));
        key
    }
}

//------------------------------------------------------------------------------
/// An item that has been matched against a query
pub struct MatchedItem<T: ?Sized + SkimItem = dyn SkimItem> {
    /// The underlying skim item
    pub item: Arc<T>,
    /// Raw match measurements
    pub rank: Rank,
    /// Range of characters that matched the pattern
    pub matched_range: Option<MatchRange>,
    /// Sort key computed at construction time from `rank` and the tiebreak
    /// criteria.
    pub sort_key: [i32; 5],
}

impl<T: ?Sized + SkimItem> Clone for MatchedItem<T> {
    fn clone(&self) -> (r: Self)
        ensures
            r.rank == self.rank,
            r.sort_key == self.sort_key,
    {
        MatchedItem {
            item: Arc::clone(&self.item),
            rank: self.rank,
            matched_range: self.matched_range.clone(),
            sort_key: self.sort_key,
        }
    }
}

/// `(a, ai)` comes before or together with `(b, bi)` when compared
/// lexicographically, the five key slots first and the index last.
pub open spec fn key_le(a: Seq<i32>, ai: i32, b: Seq<i32>, bi: i32) -> bool {
    a[0] < b[0] || (a[0] == b[0] && (a[1] < b[1] || (a[1] == b[1] && (a[2] < b[2] || (a[2] == b[2] && (a[3]
        < b[3] || (a[3] == b[3] && (a[4] < b[4] || (a[4] == b[4] && ai <= bi)))))))))
}

impl<T: ?Sized + SkimItem> MatchedItem<T> {
    /// The sort key the item was built with.
    pub open spec fn spec_key(&self) -> Seq<i32> {
        self.sort_key@
    }

    /// `self` ranks before or together with `other`: by sort key, then index.
    pub open spec fn rank_le(&self, other: &MatchedItem<T>) -> bool {
        key_le(self.spec_key(), self.rank.index, other.spec_key(), other.rank.index)
    }

    /// Create a new `MatchedItem`, building the `sort_key` from the Rank and `RankBuilder`
    pub fn new(
        item: Arc<T>,
        rank: Rank,
        matched_range: Option<MatchRange>,
        rank_builder: &RankBuilder,
    ) -> (r: Self)
        requires
            rank_keys_fit(rank),
        ensures
            r.item == item,
            r.rank == rank,
            r.matched_range == matched_range,
            r.spec_key() == spec_sort_key(rank, rank_builder.spec_criteria()),
    {
        let sort_key = rank.sort_key(rank_builder.criteria());
        MatchedItem { item, rank, matched_range, sort_key }
    }
}

/// `rank_le` orders items totally (up to ties) and transitively.
pub proof fn lemma_rank_le_order<T: ?Sized + SkimItem>(a: MatchedItem<T>, b: MatchedItem<T>, c: MatchedItem<T>)
    ensures
        a.rank_le(&a),
        a.rank_le(&b) || b.rank_le(&a),
        a.rank_le(&b) && b.rank_le(&c) ==> a.rank_le(&c),
{
}

/// Every item ranks before or together with every later one.
pub open spec fn sorted_by_rank(s: Seq<MatchedItem>) -> bool {
    forall|i: int, j: int| #![trigger s[i], s[j]] 0 <= i < j < s.len() ==> s[i].rank_le(&s[j])
}

/// Whether `a` ranks before or together with `b`.
pub fn rank_le(a: &MatchedItem, b: &MatchedItem) -> (r: bool)
    ensures
        r == a.rank_le(b),
{
    let x = &a.sort_key;
    let y = &b.sort_key;
    if x[0] != y[0] {
        return x[0] < y[0];
    }
    if x[1] != y[1] {
        return x[1] < y[1];
    }
    if x[2] != y[2] {
        return x[2] < y[2];
    }
    if x[3] != y[3] {
        return x[3] < y[3];
    }
    if x[4] != y[4] {
        return x[4] < y[4];
    }
    a.rank.index <= b.rank.index
}

/// Appends `b` after `a`.
fn append_all(a: &mut Vec<MatchedItem>, b: Vec<MatchedItem>)
    ensures
        final(a)@ == old(a)@ + b@,
{
    let mut b = b;
    a.append(&mut b);
}

/// Every item ranks after or together with every later one.
pub open spec fn reverse_sorted_by_rank(s: Seq<MatchedItem>) -> bool {
    forall|i: int, j: int| #![trigger s[j], s[i]] 0 <= i < j < s.len() ==> s[j].rank_le(&s[i])
}

/// Every item of `a` ranks before or together with every item of `b`.
pub open spec fn all_rank_le(a: Seq<MatchedItem>, b: Seq<MatchedItem>) -> bool {
    forall|i: int, j: int| #![trigger a[i], b[j]] 0 <= i < a.len() && 0 <= j < b.len() ==> a[i].rank_le(&b[j])
}

proof fn lemma_merge_result(pre: Seq<MatchedItem>, t: Seq<MatchedItem>)
    requires
        sorted_by_rank(pre),
        reverse_sorted_by_rank(t),
        all_rank_le(pre, t),
    ensures
        sorted_by_rank(pre + t.reverse()),
{
    let r = pre + t.reverse();
    assert forall|i: int, j: int| #![trigger r[i], r[j]] 0 <= i < j < r.len() implies r[i].rank_le(&r[j]) by {
        if j >= pre.len() {
            let jj = t.len() - 1 - (j - pre.len());
            assert(r[j] == t[jj]);
            if i >= pre.len() {
                let ii = t.len() - 1 - (i - pre.len());
                assert(r[i] == t[ii]);
            }
        }
    }
}

/// Moving the last item of `x` onto `r` keeps the union of the three.
proof fn lemma_move_last(a: Seq<MatchedItem>, x: Seq<MatchedItem>, r: Seq<MatchedItem>, y: MatchedItem)
    ensures
        a.to_multiset().add(x.push(y).to_multiset()).add(r.to_multiset()) =~= a.to_multiset().add(
            x.to_multiset(),
        ).add(r.push(y).to_multiset()),
        x.push(y).to_multiset().add(a.to_multiset()).add(r.to_multiset()) =~= x.to_multiset().add(
            a.to_multiset(),
        ).add(r.push(y).to_multiset()),
{
    broadcast use vstd::seq_lib::group_to_multiset_ensures;
    broadcast use vstd::multiset::group_multiset_axioms;

    assert(x.push(y).to_multiset() =~= x.to_multiset().insert(y));
    assert(r.push(y).to_multiset() =~= r.to_multiset().insert(y));
}

/// The backward part of a merge: repeatedly moves the greater of the two
/// last items (the incoming one on ties) to a tail, until one list is empty.
/// Returns what is left of the non-empty list and the tail, greatest first.
fn merge_tails(existing: Vec<MatchedItem>, incoming: Vec<MatchedItem>) -> (r: (Vec<MatchedItem>, Vec<MatchedItem>))
    requires
        sorted_by_rank(existing@),
        sorted_by_rank(incoming@),
    ensures
        sorted_by_rank(r.0@),
        reverse_sorted_by_rank(r.1@),
        all_rank_le(r.0@, r.1@),
        r.0@.to_multiset().add(r.1@.to_multiset()) == existing@.to_multiset().add(incoming@.to_multiset()),
{
    broadcast use vstd::seq_lib::group_to_multiset_ensures;
    broadcast use vstd::multiset::group_multiset_axioms;

    let ghost ex = existing@;
    let ghost inc = incoming@;
    let mut a = existing;
    let mut b = incoming;
    let mut rev: Vec<MatchedItem> = Vec::new();
    while a.len() > 0 && b.len() > 0
        invariant
            sorted_by_rank(ex),
            sorted_by_rank(inc),
            a@ == ex.take(a@.len() as int),
            b@ == inc.take(b@.len() as int),
            a@.len() <= ex.len(),
            b@.len() <= inc.len(),
            reverse_sorted_by_rank(rev@),
            all_rank_le(a@, rev@),
            all_rank_le(b@, rev@),
            a@.to_multiset().add(b@.to_multiset()).add(rev@.to_multiset()) == ex.to_multiset().add(
                inc.to_multiset(),
            ),
        decreases a@.len() + b@.len(),
    {
        let ghost a0 = a@;
        let ghost b0 = b@;
        let ghost r0 = rev@;
        if rank_le(&a[a.len() - 1], &b[b.len() - 1]) {
            let y = b.pop().unwrap();
            rev.push(y);
            proof {
                assert(b@ =~= inc.take(b@.len() as int));
                assert forall|i: int, j: int| #![trigger a@[i], rev@[j]] 0 <= i < a@.len() && 0 <= j < rev@.len() implies a@[i].rank_le(&rev@[j]) by {
                    if j == r0.len() {
                        lemma_rank_le_order(a@[i], a0[a0.len() - 1], y);
                    }
                }
                assert forall|i: int, j: int| #![trigger b@[i], rev@[j]] 0 <= i < b@.len() && 0 <= j < rev@.len() implies b@[i].rank_le(&rev@[j]) by {
                    assert(b@[i] == b0[i]);
                    if j < r0.len() {
                        assert(rev@[j] == r0[j]);
                    }
                }
                assert forall|i: int, j: int| #![trigger rev@[j], rev@[i]] 0 <= i < j < rev@.len() implies rev@[j].rank_le(&rev@[i]) by {
                    if j == r0.len() {
                        assert(b0[b0.len() - 1] == y);
                        assert(rev@[i] == r0[i]);
                    }
                }
                assert(b0 =~= b@.push(y));
                assert(rev@ =~= r0.push(y));
                lemma_move_last(a@, b@, r0, y);
                assert(a@.to_multiset().add(b@.to_multiset()).add(rev@.to_multiset()) =~= a0.to_multiset().add(
                    b0.to_multiset(),
                ).add(r0.to_multiset()));
            }
        } else {
            let y = a.pop().unwrap();
            rev.push(y);
            proof {
                lemma_rank_le_order(a0[a0.len() - 1], b0[b0.len() - 1], a0[a0.len() - 1]);
                assert(a@ =~= ex.take(a@.len() as int));
                assert forall|i: int, j: int| #![trigger b@[i], rev@[j]] 0 <= i < b@.len() && 0 <= j < rev@.len() implies b@[i].rank_le(&rev@[j]) by {
                    if j == r0.len() {
                        lemma_rank_le_order(b@[i], b0[b0.len() - 1], y);
                    }
                }
                assert forall|i: int, j: int| #![trigger a@[i], rev@[j]] 0 <= i < a@.len() && 0 <= j < rev@.len() implies a@[i].rank_le(&rev@[j]) by {
                    assert(a@[i] == a0[i]);
                    if j < r0.len() {
                        assert(rev@[j] == r0[j]);
                    }
                }
                assert forall|i: int, j: int| #![trigger rev@[j], rev@[i]] 0 <= i < j < rev@.len() implies rev@[j].rank_le(&rev@[i]) by {
                    if j == r0.len() {
                        assert(a0[a0.len() - 1] == y);
                        assert(rev@[i] == r0[i]);
                    }
                }
                assert(a0 =~= a@.push(y));
                assert(rev@ =~= r0.push(y));
                lemma_move_last(b@, a@, r0, y);
                assert(a@.to_multiset().add(b@.to_multiset()).add(rev@.to_multiset()) =~= a0.to_multiset().add(
                    b0.to_multiset(),
                ).add(r0.to_multiset()));
            }
        }
    }
    if a.len() > 0 {
        proof {
            assert(b@.len() == 0);
            assert(b@.to_multiset() =~= vstd::multiset::Multiset::empty());
            assert(a@.to_multiset().add(rev@.to_multiset()) =~= a@.to_multiset().add(b@.to_multiset()).add(
                rev@.to_multiset(),
            ));
        }
        (a, rev)
    } else {
        proof {
            assert(a@.to_multiset() =~= vstd::multiset::Multiset::empty());
            assert(b@.to_multiset().add(rev@.to_multiset()) =~= a@.to_multiset().add(b@.to_multiset()).add(
                rev@.to_multiset(),
            ));
        }
        (b, rev)
    }
}

impl MatchedItem {
    /// Merge two sorted lists into one sorted list holding the items of both.
    /// The merge is O(n+m).
    pub fn sorted_merge(existing: Vec<MatchedItem>, incoming: Vec<MatchedItem>) -> (r: Vec<MatchedItem>)
        requires
            sorted_by_rank(existing@),
            sorted_by_rank(incoming@),
        ensures
            sorted_by_rank(r@),
            r@.to_multiset() == existing@.to_multiset().add(incoming@.to_multiset()),
            existing@.len() == 0 ==> r@ == incoming@,
            incoming@.len() == 0 ==> r@ == existing@,
            existing@.len() > 0 && incoming@.len() > 0 && existing@.last().rank_le(&incoming@[0]) ==> r@ == existing@
                + incoming@,
    {
        broadcast use vstd::seq_lib::group_to_multiset_ensures;
        broadcast use vstd::seq_lib::lemma_multiset_commutative;

        if existing.len() == 0 {
            assert(existing@ + incoming@ =~= incoming@);
            return incoming;
        }
        if incoming.len() == 0 {
            assert(existing@ + incoming@ =~= existing@);
            return existing;
        }
        let ghost ex = existing@;
        let ghost inc = incoming@;
        // all existing before the first incoming: append
        if rank_le(&existing[existing.len() - 1], &incoming[0]) {
            let mut out = existing;
            append_all(&mut out, incoming);
            proof {
                assert forall|i: int, j: int| #![trigger out@[i], out@[j]] 0 <= i < j < out@.len() implies out@[i].rank_le(&out@[j]) by {
                    if i < ex.len() && j >= ex.len() {
                        lemma_rank_le_order(out@[i], ex[ex.len() - 1], inc[0]);
                        lemma_rank_le_order(out@[i], inc[0], out@[j]);
                    }
                }
            }
            return out;
        }
        // all incoming before the first existing: prepend
        if rank_le(&incoming[incoming.len() - 1], &existing[0]) {
            let mut out = incoming;
            append_all(&mut out, existing);
            proof {
                assert forall|i: int, j: int| #![trigger out@[i], out@[j]] 0 <= i < j < out@.len() implies out@[i].rank_le(&out@[j]) by {
                    if i < inc.len() && j >= inc.len() {
                        lemma_rank_le_order(out@[i], inc[inc.len() - 1], ex[0]);
                        lemma_rank_le_order(out@[i], ex[0], out@[j]);
                    }
                }
            }
            return out;
        }
        let (prefix, tail) = merge_tails(existing, incoming);
        let mut out = prefix;
        let mut tail = tail;
        let ghost pre = out@;
        let ghost t0 = tail@;
        while tail.len() > 0
            invariant
                pre.len() <= out@.len(),
                out@.len() + tail@.len() == pre.len() + t0.len(),
                tail@ == t0.take(tail@.len() as int),
                out@ == pre + t0.skip(tail@.len() as int).reverse(),
            decreases tail@.len(),
        {
            let ghost before = out@;
            let x = tail.pop().unwrap();
            out.push(x);
            proof {
                let l = tail@.len() as int;
                assert(t0.skip(l).reverse() =~= t0.skip(l + 1).reverse().push(t0[l]));
                assert(tail@ =~= t0.take(l));
            }
        }
        proof {
            assert(t0.skip(0) =~= t0);
            lemma_merge_result(pre, t0);
            t0.lemma_reverse_to_multiset();
        }
        out
    }
}

proof fn lemma_push_multiset(s: Seq<MatchedItem>, x: MatchedItem)
    ensures
        s.push(x).to_multiset() =~= s.to_multiset().insert(x),
{
    broadcast use vstd::seq_lib::group_to_multiset_ensures;

}

proof fn lemma_insert_multiset(s: Seq<MatchedItem>, p: int, x: MatchedItem)
    requires
        0 <= p <= s.len(),
    ensures
        (s.subrange(0, p).push(x) + s.subrange(p, s.len() as int)).to_multiset() =~= s.to_multiset().insert(x),
{
    broadcast use vstd::seq_lib::group_to_multiset_ensures;
    broadcast use vstd::seq_lib::lemma_multiset_commutative;
    broadcast use vstd::multiset::group_multiset_axioms;

    let a = s.subrange(0, p);
    let b = s.subrange(p, s.len() as int);
    assert(s =~= a + b);
    assert(a.push(x).to_multiset() =~= a.to_multiset().insert(x));
}

/// First position whose item ranks strictly after `item` (the length when none
/// does).
fn insertion_point(existing: &Vec<MatchedItem>, item: &MatchedItem) -> (p: usize)
    requires
        sorted_by_rank(existing@),
    ensures
        p <= existing@.len(),
        forall|k: int| 0 <= k < p ==> (#[trigger] existing@[k]).rank_le(item),
        forall|k: int| p <= k < existing@.len() ==> item.rank_le(&#[trigger] existing@[k]),
{
    let mut lo: usize = 0;
    let mut hi: usize = existing.len();
    while lo < hi
        invariant
            sorted_by_rank(existing@),
            lo <= hi <= existing@.len(),
            forall|k: int| 0 <= k < lo ==> (#[trigger] existing@[k]).rank_le(item),
            forall|k: int| hi <= k < existing@.len() ==> !(#[trigger] existing@[k]).rank_le(item),
        decreases hi - lo,
    {
        let mid = lo + (hi - lo) / 2;
        if rank_le(&existing[mid], item) {
            proof {
                assert forall|k: int| 0 <= k < mid + 1 implies (#[trigger] existing@[k]).rank_le(item) by {
                    if k < mid {
                        lemma_rank_le_order(existing@[k], existing@[mid as int], *item);
                    }
                }
            }
            lo = mid + 1;
        } else {
            proof {
                assert forall|k: int| mid <= k < existing@.len() implies !(#[trigger] existing@[k]).rank_le(item) by {
                    if k > mid {
                        if existing@[k].rank_le(item) {
                            lemma_rank_le_order(existing@[mid as int], existing@[k], *item);
                        }
                    }
                }
            }
            hi = mid;
        }
    }
    proof {
        assert forall|k: int| lo <= k < existing@.len() implies item.rank_le(&#[trigger] existing@[k]) by {
            lemma_rank_le_order(*item, existing@[k], *item);
        }
    }
    lo
}

impl MatchedItem {
    /// Merge `incoming` into an already-sorted `existing` vector: small batches
    /// (at most 256 items) are inserted one by one at their binary-searched
    /// position, larger ones are merged backwards.
    pub fn merge_into_sorted(existing: &mut Vec<MatchedItem>, incoming: Vec<MatchedItem>)
        requires
            sorted_by_rank(old(existing)@),
            sorted_by_rank(incoming@),
        ensures
            sorted_by_rank(final(existing)@),
            final(existing)@.to_multiset() == old(existing)@.to_multiset().add(incoming@.to_multiset()),
            incoming@.len() == 0 ==> final(existing)@ == old(existing)@,
            old(existing)@.len() == 0 ==> final(existing)@ == incoming@,
            old(existing)@.len() > 0 && incoming@.len() > 0 && old(existing)@.last().rank_le(&incoming@[0])
                ==> final(existing)@ == old(existing)@ + incoming@,
    {
        broadcast use vstd::seq_lib::group_to_multiset_ensures;
        broadcast use vstd::seq_lib::lemma_multiset_commutative;
        broadcast use vstd::multiset::group_multiset_axioms;

        let ghost ex = existing@;
        let ghost inc = incoming@;
        if incoming.len() == 0 {
            assert(ex.to_multiset().add(inc.to_multiset()) =~= ex.to_multiset());
            return;
        }
        if existing.len() == 0 {
            append_all(existing, incoming);
            assert(ex + inc =~= inc);
            return;
        }
        if rank_le(&existing[existing.len() - 1], &incoming[0]) {
            append_all(existing, incoming);
            proof {
                assert forall|i: int, j: int| #![trigger existing@[i], existing@[j]]
                    0 <= i < j < existing@.len() implies existing@[i].rank_le(&existing@[j]) by {
                    if i < ex.len() && j >= ex.len() {
                        lemma_rank_le_order(existing@[i], ex[ex.len() - 1], inc[0]);
                        lemma_rank_le_order(existing@[i], inc[0], existing@[j]);
                    }
                }
            }
            return;
        }
        if incoming.len() <= 256 {
            let mut incoming = incoming;
            while incoming.len() > 0
                invariant
                    sorted_by_rank(existing@),
                    existing@.to_multiset().add(incoming@.to_multiset()) == ex.to_multiset().add(inc.to_multiset()),
                decreases incoming@.len(),
            {
                let ghost before = existing@;
                let ghost inc_before = incoming@;
                let item = incoming.pop().unwrap();
                let pos = insertion_point(existing, &item);
                existing.insert(pos, item);
                proof {
                    assert(existing@ =~= before.subrange(0, pos as int).push(item) + before.subrange(
                        pos as int,
                        before.len() as int,
                    ));
                    assert forall|i: int, j: int| #![trigger existing@[i], existing@[j]]
                        0 <= i < j < existing@.len() implies existing@[i].rank_le(&existing@[j]) by {
                        if i < pos && j > pos {
                            lemma_rank_le_order(existing@[i], item, existing@[j]);
                        }
                    }
                    lemma_insert_multiset(before, pos as int, item);
                    assert(inc_before =~= incoming@.push(item));
                    lemma_push_multiset(incoming@, item);
                }
            }
            proof {
                assert(incoming@.to_multiset() =~= vstd::multiset::Multiset::empty());
            }
        } else {
            Self::merge_backwards(existing, incoming);
        }
    }

    /// Merges `incoming` into `existing` right to left: the greater of the two
    /// last items goes to the back until one side is empty; what is left of
    /// the other side stays in front.
    fn merge_backwards(existing: &mut Vec<MatchedItem>, incoming: Vec<MatchedItem>)
        requires
            sorted_by_rank(old(existing)@),
            sorted_by_rank(incoming@),
        ensures
            sorted_by_rank(final(existing)@),
            final(existing)@.to_multiset() == old(existing)@.to_multiset().add(incoming@.to_multiset()),
    {
        let mut taken: Vec<MatchedItem> = Vec::new();
        std::mem::swap(existing, &mut taken);
        let merged = Self::sorted_merge(taken, incoming);
        *existing = merged;
    }
}

} // verus!
