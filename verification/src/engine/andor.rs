//! Combinators: the `Or` engine keeps the best-scoring sub-engine result, the
//! `And` engine needs every sub-engine to match and merges their results.
use vstd::prelude::*;

use crate::fuzzy_matcher::MatchIndices;
use crate::text::push_str;
use crate::{
    range_fits, ranges_fit, ranges_view, result_view, spec_range_char_indices, MatchEngine, MatchRange, MatchResult,
    Rank, SpecMatchRange,
};

verus! {

//------------------------------------------------------------------------------
// Sorted index sets

/// Every element is smaller than every later one.
pub open spec fn strictly_increasing(v: Seq<usize>) -> bool {
    forall|i: int, j: int| 0 <= i < j < v.len() ==> v[i] < v[j]
}

/// The elements of a finite set in increasing order.
pub open spec fn sorted_elements(s: Set<usize>) -> Seq<usize> {
    choose|v: Seq<usize>| strictly_increasing(v) && v.to_set() == s
}

/// Two increasing sequences with the same elements are equal.
proof fn lemma_increasing_unique(a: Seq<usize>, b: Seq<usize>)
    requires
        strictly_increasing(a),
        strictly_increasing(b),
        a.to_set() == b.to_set(),
    ensures
        a == b,
    decreases a.len(),
{
    if a.len() == 0 {
        if b.len() > 0 {
            assert(b.to_set().contains(b[0]));
            assert(!a.to_set().contains(b[0]));
        }
        assert(a =~= b);
    } else {
        assert(a.to_set().contains(a[0]));
        assert(b.to_set().contains(a[0]));
        let j = choose|j: int| 0 <= j < b.len() && b[j] == a[0];
        assert(b.to_set().contains(b[0]));
        assert(a.to_set().contains(b[0]));
        let i = choose|i: int| 0 <= i < a.len() && a[i] == b[0];
        assert(a[0] == b[0]);
        let a1 = a.drop_first();
        let b1 = b.drop_first();
        assert forall|x: usize| a1.to_set().contains(x) == b1.to_set().contains(x) by {
            if a1.to_set().contains(x) {
                let k = choose|k: int| 0 <= k < a1.len() && a1[k] == x;
                assert(a[k + 1] == x);
                assert(a.to_set().contains(x));
                assert(b.to_set().contains(x));
                let q = choose|q: int| 0 <= q < b.len() && b[q] == x;
                assert(q != 0);
                assert(b1[q - 1] == x);
            }
            if b1.to_set().contains(x) {
                let k = choose|k: int| 0 <= k < b1.len() && b1[k] == x;
                assert(b[k + 1] == x);
                assert(b.to_set().contains(x));
                assert(a.to_set().contains(x));
                let q = choose|q: int| 0 <= q < a.len() && a[q] == x;
                assert(q != 0);
                assert(a1[q - 1] == x);
            }
        }
        assert(a1.to_set() =~= b1.to_set());
        lemma_increasing_unique(a1, b1);
        assert(a =~= seq![a[0]] + a1);
        assert(b =~= seq![b[0]] + b1);
    }
}

/// An increasing sequence is the sorted elements of its set.
pub(crate) proof fn lemma_is_sorted_elements(v: Seq<usize>)
    requires
        strictly_increasing(v),
    ensures
        sorted_elements(v.to_set()) == v,
{
    let w = sorted_elements(v.to_set());
    assert(strictly_increasing(v) && v.to_set() == v.to_set());
    lemma_increasing_unique(w, v);
}

/// Adds `x` to an increasing vector, keeping it increasing.
pub(crate) fn insert_sorted_unique(v: &mut Vec<usize>, x: usize)
    requires
        strictly_increasing(old(v)@),
    ensures
        strictly_increasing(final(v)@),
        final(v)@.to_set() == old(v)@.to_set().insert(x),
{
    let ghost before = v@;
    let mut lo: usize = 0;
    let mut hi: usize = v.len();
    while lo < hi
        invariant
            v@ == before,
            strictly_increasing(before),
            lo <= hi <= before.len(),
            forall|k: int| 0 <= k < lo ==> before[k] < x,
            forall|k: int| hi <= k < before.len() ==> before[k] >= x,
        decreases hi - lo,
    {
        let mid = lo + (hi - lo) / 2;
        if v[mid] < x {
            lo = mid + 1;
        } else {
            hi = mid;
        }
    }
    if lo < v.len() && v[lo] == x {
        assert(before.to_set().insert(x) =~= before.to_set());
        return;
    }
    v.insert(lo, x);
    proof {
        assert(v@ =~= before.subrange(0, lo as int).push(x) + before.subrange(lo as int, before.len() as int));
        assert forall|i: int, j: int| 0 <= i < j < v@.len() implies v@[i] < v@[j] by {
            if j < lo {
                assert(v@[i] == before[i] && v@[j] == before[j]);
            } else if j == lo {
                assert(v@[i] == before[i]);
            } else if i < lo {
                assert(v@[i] == before[i] && v@[j] == before[j - 1]);
            } else if i == lo {
                assert(v@[j] == before[j - 1]);
            } else {
                assert(v@[i] == before[i - 1] && v@[j] == before[j - 1]);
            }
        }
        assert forall|y: usize| v@.to_set().contains(y) == before.to_set().insert(x).contains(y) by {
            if v@.to_set().contains(y) {
                let k = choose|k: int| 0 <= k < v@.len() && v@[k] == y;
                if k < lo {
                    assert(before[k] == y);
                } else if k > lo {
                    assert(before[k - 1] == y);
                }
            }
            if before.to_set().contains(y) {
                let k = choose|k: int| 0 <= k < before.len() && before[k] == y;
                if k < lo {
                    assert(v@[k] == y);
                } else {
                    assert(v@[k + 1] == y);
                }
            }
            if y == x {
                assert(v@[lo as int] == x);
            }
        }
        assert(v@.to_set() =~= before.to_set().insert(x));
    }
}

//------------------------------------------------------------------------------
// OrEngine, a combinator

/// Result of `OrEngine`.
pub struct OrEngine {
    engines: Vec<Box<dyn MatchEngine>>,
}

/// The descriptions of the first `k` engines, separated by `, `.
pub open spec fn describe_join(es: Seq<Box<dyn MatchEngine>>, k: int) -> Seq<char>
    decreases k,
{
    if k <= 0 {
        Seq::empty()
    } else if k == 1 {
        es[0].spec_describe()
    } else {
        describe_join(es, k - 1) + ", "@ + es[k - 1].spec_describe()
    }
}

/// Whether `a` ranks at least as high as `b` for the `Or` engine: a match
/// beats no match, and matches compare by score.
pub open spec fn or_key_ge(a: Option<(Rank, SpecMatchRange)>, b: Option<(Rank, SpecMatchRange)>) -> bool {
    match (a, b) {
        (None, None) => true,
        (None, Some(_)) => false,
        (Some(_), None) => true,
        (Some(x), Some(y)) => x.0.score >= y.0.score,
    }
}

/// The greatest of the first `k` sub-engine results (the last one among equals);
/// `None` when `k` is 0.
pub open spec fn or_best(
    engines: Seq<Box<dyn MatchEngine>>,
    text: Seq<char>,
    ranges: Option<Seq<(usize, usize)>>,
    k: int,
) -> Option<Option<(Rank, SpecMatchRange)>>
    decreases k,
{
    if k <= 0 {
        None
    } else {
        let r = engines[k - 1].spec_match(text, ranges);
        match or_best(engines, text, ranges, k - 1) {
            None => Some(r),
            Some(b) => if or_key_ge(r, b) {
                Some(r)
            } else {
                Some(b)
            },
        }
    }
}

impl OrEngine {
    pub fn builder() -> (r: Self)
        ensures
            r.spec_engines().len() == 0,
    {
        OrEngine { engines: Vec::new() }
    }

    /// The sub-engines, in order.
    pub closed spec fn spec_engines(&self) -> Seq<Box<dyn MatchEngine>> {
        self.engines@
    }

    /// Adds sub-engines after the existing ones.
    pub fn engines(self, engines: Vec<Box<dyn MatchEngine>>) -> (r: Self)
        ensures
            r.spec_engines() == self.spec_engines() + engines@,
    {
        let mut all = self.engines;
        let mut engines = engines;
        all.append(&mut engines);
        OrEngine { engines: all }
    }

    pub fn build(self) -> (r: Self)
        ensures
            r.spec_engines() == self.spec_engines(),
    {
        self
    }
}

impl OrEngine {
    pub open spec fn spec_match_or(&self, text: Seq<char>, ranges: Option<Seq<(usize, usize)>>) -> Option<(Rank, SpecMatchRange)> {
        match or_best(self.spec_engines(), text, ranges, self.spec_engines().len() as int) {
            Some(r) => r,
            None => None,
        }
    }
}

impl MatchEngine for OrEngine {
    open spec fn spec_match(&self, text: Seq<char>, ranges: Option<Seq<(usize, usize)>>) -> Option<(Rank, SpecMatchRange)> {
        self.spec_match_or(text, ranges)
    }

    fn match_text(&self, text: &str, ranges: Option<&[(usize, usize)]>) -> (r: Option<MatchResult>) {

        let ghost text_v = text@;
        let ghost ranges_v = ranges_view(ranges);
        let mut best: Option<Option<MatchResult>> = None;
        let mut k: usize = 0;
        while k < self.engines.len()
            invariant
                k <= self.engines@.len(),
                self.engines@ == self.spec_engines(),
                text_v == text@,
                ranges_v == ranges_view(ranges),
                ranges matches Some(rs) ==> ranges_fit(text@, rs@),
                match best {
                    None => or_best(self.spec_engines(), text_v, ranges_v, k as int) is None,
                    Some(b) => or_best(self.spec_engines(), text_v, ranges_v, k as int) == Some(result_view(b)) && (
                    b matches Some(m) ==> range_fits(m.matched_range@, text_v)),
                },
            decreases self.engines@.len() - k,
        {
            let r = self.engines[k].match_text(text, ranges);
            best = match best {
                None => Some(r),
                Some(b) => {
                    let ge = match (&r, &b) {
                        (None, None) => true,
                        (None, Some(_)) => false,
                        (Some(_), None) => true,
                        (Some(x), Some(y)) => x.rank.score >= y.rank.score,
                    };
                    if ge {
                        Some(r)
                    } else {
                        Some(b)
                    }
                },
            };
            k += 1;
        }
        match best {
            Some(r) => r,
            None => None,
        }
    }

    open spec fn spec_describe(&self) -> Seq<char> {
        "(Or: "@ + describe_join(self.spec_engines(), self.spec_engines().len() as int) + ")"@
    }

    fn describe(&self) -> (r: String) {
        proof {
            reveal_strlit("(Or: ");
            reveal_strlit(", ");
            reveal_strlit(")");
        }
        let mut s = "(Or: ".to_owned();
        let mut k: usize = 0;
        while k < self.engines.len()
            invariant
                k <= self.engines@.len(),
                s@ == "(Or: "@ + describe_join(self.spec_engines(), k as int),
            decreases self.engines@.len() - k,
        {
            let ghost before = s@;
            if k > 0 {
                push_str(&mut s, ", ");
            }
            let d = self.engines[k].describe();
            push_str(&mut s, d.as_str());
            proof {
                let es = self.spec_engines();
                if k == 0 {
                    assert(describe_join(es, 0) =~= Seq::<char>::empty());
                    assert(describe_join(es, 1) == es[0].spec_describe());
                } else {
                    assert(describe_join(es, k + 1) == describe_join(es, k as int) + ", "@ + es[k as int].spec_describe());
                }
                assert(s@ =~= before + (if k == 0 { Seq::<char>::empty() } else { ", "@ }) + es[k as int].spec_describe());
            }
            k += 1;
        }
        push_str(&mut s, ")");
        s
    }
}

//------------------------------------------------------------------------------
// AndEngine, a combinator

/// All sub-engines must match.
pub struct AndEngine {
    engines: Vec<Box<dyn MatchEngine>>,
}

/// `a + b` cut to the `i32` range.
pub open spec fn saturating_add_i32(a: i32, b: i32) -> i32 {
    if a + b > i32::MAX {
        i32::MAX
    } else if a + b < i32::MIN {
        i32::MIN
    } else {
        (a + b) as i32
    }
}

fn i32_saturating_add(a: i32, b: i32) -> (r: i32)
    ensures
        r == saturating_add_i32(a, b),
{
    let s: i64 = a as i64 + b as i64;
    if s > 2147483647i64 {
        i32::MAX
    } else if s < -2147483648i64 {
        i32::MIN
    } else {
        s as i32
    }
}

/// The rank of merged results: the first result's rank with the scores
/// summed (saturating), the smallest begin and the greatest end.
pub open spec fn merged_rank(rs: Seq<(Rank, SpecMatchRange)>, k: int) -> Rank
    decreases k,
{
    if k <= 0 {
        Rank { score: 0, begin: i32::MAX, end: i32::MIN, ..rs[0].0 }
    } else {
        let prev = merged_rank(rs, k - 1);
        let r = rs[k - 1].0;
        Rank {
            score: saturating_add_i32(prev.score, r.score),
            begin: if r.begin < prev.begin { r.begin } else { prev.begin },
            end: if r.end > prev.end { r.end } else { prev.end },
            ..prev
        }
    }
}

/// All character indices the first `k` results cover.
pub open spec fn merged_indices(rs: Seq<(Rank, SpecMatchRange)>, text: Seq<char>, k: int) -> Set<usize>
    decreases k,
{
    if k <= 0 {
        Set::empty()
    } else {
        merged_indices(rs, text, k - 1).union(spec_range_char_indices(rs[k - 1].1, text).to_set())
    }
}

/// The result of merging the results of all sub-engines.
pub open spec fn spec_merge(rs: Seq<(Rank, SpecMatchRange)>, text: Seq<char>) -> (Rank, SpecMatchRange) {
    (
        merged_rank(rs, rs.len() as int),
        SpecMatchRange::Chars(sorted_elements(merged_indices(rs, text, rs.len() as int))),
    )
}

impl AndEngine {
    pub fn builder() -> (r: Self)
        ensures
            r.spec_engines().len() == 0,
    {
        AndEngine { engines: Vec::new() }
    }

    /// The sub-engines, in order.
    pub closed spec fn spec_engines(&self) -> Seq<Box<dyn MatchEngine>> {
        self.engines@
    }

    /// Adds sub-engines after the existing ones.
    pub fn engines(self, engines: Vec<Box<dyn MatchEngine>>) -> (r: Self)
        ensures
            r.spec_engines() == self.spec_engines() + engines@,
    {
        let mut all = self.engines;
        let mut engines = engines;
        all.append(&mut engines);
        AndEngine { engines: all }
    }

    pub fn build(self) -> (r: Self)
        ensures
            r.spec_engines() == self.spec_engines(),
    {
        self
    }

    /// Merges the results of all sub-engines: the covered character indices,
    /// sorted and without repeats, and the first rank with the scores summed,
    /// the smallest begin and the greatest end.
    pub fn merge_matched_items(items: Vec<MatchResult>, text: &str) -> (r: MatchResult)
        requires
            items@.len() >= 1,
            forall|k: int| 0 <= k < items@.len() ==> range_fits(#[trigger] items@[k].matched_range@, text@),
        ensures
            (r.rank, r.matched_range@) == spec_merge(
                Seq::new(items@.len(), |k: int| (items@[k].rank, items@[k].matched_range@)),
                text@,
            ),
    {
        let ghost rs = Seq::new(items@.len(), |k: int| (items@[k].rank, items@[k].matched_range@));
        let mut ranges: MatchIndices = Vec::new();
        let mut rank = Rank { score: 0, begin: i32::MAX, end: i32::MIN, ..items[0].rank };
        let mut k: usize = 0;
        while k < items.len()
            invariant
                k <= items@.len(),
                items@.len() >= 1,
                rs == Seq::new(items@.len(), |q: int| (items@[q].rank, items@[q].matched_range@)),
                forall|q: int| 0 <= q < items@.len() ==> range_fits(#[trigger] items@[q].matched_range@, text@),
                strictly_increasing(ranges@),
                ranges@.to_set() == merged_indices(rs, text@, k as int),
                rank == merged_rank(rs, k as int),
            decreases items@.len() - k,
        {
            let item = &items[k];
            assert(range_fits(items@[k as int].matched_range@, text@));
            let idx = item.range_char_indices(text);
            let ghost before = ranges@;
            let mut q: usize = 0;
            while q < idx.len()
                invariant
                    q <= idx@.len(),
                    strictly_increasing(ranges@),
                    ranges@.to_set() == before.to_set().union(idx@.take(q as int).to_set()),
                decreases idx@.len() - q,
            {
                insert_sorted_unique(&mut ranges, idx[q]);
                proof {
                    assert(idx@.take(q + 1).to_set() =~= idx@.take(q as int).to_set().insert(idx@[q as int])) by {
                        assert(idx@.take(q + 1) =~= idx@.take(q as int).push(idx@[q as int]));
                        vstd::seq_lib::lemma_seq_contains_after_push(idx@.take(q as int), idx@[q as int], idx@[q as int]);
                        assert forall|y: usize| idx@.take(q + 1).to_set().contains(y) == idx@.take(q as int).to_set().insert(
                            idx@[q as int],
                        ).contains(y) by {
                            vstd::seq_lib::lemma_seq_contains_after_push(idx@.take(q as int), idx@[q as int], y);
                        }
                    }
                    assert(ranges@.to_set() =~= before.to_set().union(idx@.take(q + 1).to_set()));
                }
                q += 1;
            }
            proof {
                assert(idx@.take(idx@.len() as int) =~= idx@);
                assert(ranges@.to_set() =~= merged_indices(rs, text@, k + 1));
            }
            rank.score = i32_saturating_add(rank.score, item.rank.score);
            if item.rank.begin < rank.begin {
                rank.begin = item.rank.begin;
            }
            if item.rank.end > rank.end {
                rank.end = item.rank.end;
            }
            k += 1;
        }
        proof {
            lemma_is_sorted_elements(ranges@);
        }
        MatchResult { rank, matched_range: MatchRange::Chars(ranges) }
    }
}

/// What every sub-engine answers.
pub open spec fn and_results(
    engines: Seq<Box<dyn MatchEngine>>,
    text: Seq<char>,
    ranges: Option<Seq<(usize, usize)>>,
) -> Seq<Option<(Rank, SpecMatchRange)>> {
    Seq::new(engines.len(), |k: int| engines[k].spec_match(text, ranges))
}

impl AndEngine {
    pub open spec fn spec_match_and(&self, text: Seq<char>, ranges: Option<Seq<(usize, usize)>>) -> Option<(Rank, SpecMatchRange)> {
        let rs = and_results(self.spec_engines(), text, ranges);
        if rs.len() == 1 {
            rs[0]
        } else if rs.len() == 0 || exists|k: int| 0 <= k < rs.len() && rs[k] is None {
            None
        } else {
            Some(spec_merge(Seq::new(rs.len(), |k: int| rs[k]->Some_0), text))
        }
    }
}

impl MatchEngine for AndEngine {
    open spec fn spec_match(&self, text: Seq<char>, ranges: Option<Seq<(usize, usize)>>) -> Option<(Rank, SpecMatchRange)> {
        self.spec_match_and(text, ranges)
    }

    fn match_text(&self, text: &str, ranges: Option<&[(usize, usize)]>) -> (r: Option<MatchResult>) {

        let ghost text_v = text@;
        let ghost ranges_v = ranges_view(ranges);
        let ghost rs = and_results(self.spec_engines(), text_v, ranges_v);
        // Fast path: a single sub-engine, no merge.
        if self.engines.len() == 1 {
            return self.engines[0].match_text(text, ranges);
        }
        let mut results: Vec<MatchResult> = Vec::new();
        let mut k: usize = 0;
        while k < self.engines.len()
            invariant
                k <= self.engines@.len(),
                self.engines@ == self.spec_engines(),
                text_v == text@,
                ranges_v == ranges_view(ranges),
                ranges matches Some(rs) ==> ranges_fit(text@, rs@),
                rs == and_results(self.spec_engines(), text_v, ranges_v),
                results@.len() == k,
                forall|q: int| 0 <= q < k ==> rs[q] == Some((#[trigger] results@[q].rank, results@[q].matched_range@)),
                forall|q: int| 0 <= q < k ==> range_fits(#[trigger] results@[q].matched_range@, text_v),
            decreases self.engines@.len() - k,
        {
            let r = self.engines[k].match_text(text, ranges);
            match r {
                Some(m) => {
                    results.push(m);
                },
                None => {
                    proof {
                        assert(rs[k as int] is None);
                    }
                    return None;
                },
            }
            k += 1;
        }
        if results.len() == 0 {
            return None;
        }
        let merged = Self::merge_matched_items(results, text);
        proof {
            assert forall|q: int| 0 <= q < rs.len() implies rs[q] is Some by {
                assert(rs[q] == Some((results@[q].rank, results@[q].matched_range@)));
            }
            assert(!exists|q: int| 0 <= q < rs.len() && rs[q] is None);
            assert(Seq::new(rs.len(), |q: int| rs[q]->Some_0) =~= Seq::new(
                results@.len(),
                |q: int| (results@[q].rank, results@[q].matched_range@),
            ));
        }
        Some(merged)
    }

    open spec fn spec_describe(&self) -> Seq<char> {
        "(And: "@ + describe_join(self.spec_engines(), self.spec_engines().len() as int) + ")"@
    }

    fn describe(&self) -> (r: String) {
        proof {
            reveal_strlit("(And: ");
            reveal_strlit(", ");
            reveal_strlit(")");
        }
        let mut s = "(And: ".to_owned();
        let mut k: usize = 0;
        while k < self.engines.len()
            invariant
                k <= self.engines@.len(),
                s@ == "(And: "@ + describe_join(self.spec_engines(), k as int),
            decreases self.engines@.len() - k,
        {
            let ghost before = s@;
            if k > 0 {
                push_str(&mut s, ", ");
            }
            let d = self.engines[k].describe();
            push_str(&mut s, d.as_str());
            proof {
                let es = self.spec_engines();
                if k == 0 {
                    assert(describe_join(es, 0) =~= Seq::<char>::empty());
                    assert(describe_join(es, 1) == es[0].spec_describe());
                } else {
                    assert(describe_join(es, k + 1) == describe_join(es, k as int) + ", "@ + es[k as int].spec_describe());
                }
                assert(s@ =~= before + (if k == 0 { Seq::<char>::empty() } else { ", "@ }) + es[k as int].spec_describe());
            }
            k += 1;
        }
        push_str(&mut s, ")");
        s
    }
}

/// The best of the first `k` results is a match exactly when one of them is.
proof fn lemma_or_best_some(
    engines: Seq<Box<dyn MatchEngine>>,
    text: Seq<char>,
    ranges: Option<Seq<(usize, usize)>>,
    k: int,
)
    requires
        0 <= k <= engines.len(),
    ensures
        k > 0 ==> or_best(engines, text, ranges, k) is Some,
        (or_best(engines, text, ranges, k) matches Some(r) && r is Some) <==> exists|j: int|
            0 <= j < k && (#[trigger] engines[j].spec_match(text, ranges)) is Some,
    decreases k,
{
    if k > 0 {
        lemma_or_best_some(engines, text, ranges, k - 1);
        if engines[k - 1].spec_match(text, ranges) is Some {
            assert(0 <= k - 1 < k && engines[k - 1].spec_match(text, ranges) is Some);
        }
    }
}

/// What the first `k` alternatives give: the chosen answer is one of theirs
/// and scores at least as much as every answer among them; no answer is
/// chosen only when none of them matches.
proof fn lemma_or_best_is_max(
    engines: Seq<Box<dyn MatchEngine>>,
    text: Seq<char>,
    ranges: Option<Seq<(usize, usize)>>,
    k: int,
)
    requires
        0 <= k <= engines.len(),
    ensures
        or_best(engines, text, ranges, k) matches Some(Some(x)) ==> (exists|j: int|
            0 <= j < k && #[trigger] engines[j].spec_match(text, ranges) == Some(x) && forall|j2: int|
                j < j2 < k && (#[trigger] engines[j2].spec_match(text, ranges)) is Some ==> engines[j2].spec_match(
                    text,
                    ranges,
                )->Some_0.0.score < x.0.score) && (forall|j: int|
            0 <= j < k && (#[trigger] engines[j].spec_match(text, ranges)) is Some ==> x.0.score >= engines[j].spec_match(
                text,
                ranges,
            )->Some_0.0.score),
        or_best(engines, text, ranges, k) matches Some(None) ==> forall|j: int|
            0 <= j < k ==> (#[trigger] engines[j].spec_match(text, ranges)) is None,
    decreases k,
{
    if k > 0 {
        lemma_or_best_is_max(engines, text, ranges, k - 1);
        let r = engines[k - 1].spec_match(text, ranges);
        match or_best(engines, text, ranges, k - 1) {
            None => {
                assert(k - 1 == 0);
            },
            Some(b) => {
                if or_key_ge(r, b) {
                    if let Some(x) = r {
                        assert(engines[k - 1].spec_match(text, ranges) == Some(x));
                    }
                } else {
                    if let Some(x) = b {
                        let j0 = choose|j: int|
                            0 <= j < k - 1 && #[trigger] engines[j].spec_match(text, ranges) == Some(x) && forall|j2: int|
                                j < j2 < k - 1 && (#[trigger] engines[j2].spec_match(text, ranges)) is Some
                                    ==> engines[j2].spec_match(text, ranges)->Some_0.0.score < x.0.score;
                        assert(0 <= j0 < k && engines[j0].spec_match(text, ranges) == Some(x));
                        assert forall|j2: int|
                            j0 < j2 < k && (#[trigger] engines[j2].spec_match(text, ranges)) is Some implies engines[j2].spec_match(
                                text,
                                ranges,
                            )->Some_0.0.score < x.0.score by {
                            if j2 == k - 1 {
                                assert(engines[j2].spec_match(text, ranges) == r);
                            }
                        }
                    }
                }
            },
        }
    }
}

/// An `Or` query answers with one of its alternatives' answers, the
/// best-scoring one: when it matches, some alternative gave exactly that
/// answer, no matching alternative scores more, and every later matching
/// alternative scores less (among equal best scores the last one wins).
pub proof fn lemma_or_takes_best_score(e: OrEngine, text: Seq<char>, ranges: Option<Seq<(usize, usize)>>)
    ensures
        e.spec_match_or(text, ranges) matches Some(x) ==> (exists|j: int|
            0 <= j < e.spec_engines().len() && #[trigger] e.spec_engines()[j].spec_match(text, ranges) == Some(x)
                && forall|j2: int|
                j < j2 < e.spec_engines().len() && (#[trigger] e.spec_engines()[j2].spec_match(text, ranges)) is Some
                    ==> e.spec_engines()[j2].spec_match(text, ranges)->Some_0.0.score < x.0.score) && (forall|j: int|
            0 <= j < e.spec_engines().len() && (#[trigger] e.spec_engines()[j].spec_match(text, ranges)) is Some
                ==> x.0.score >= e.spec_engines()[j].spec_match(text, ranges)->Some_0.0.score),
{
    lemma_or_best_is_max(e.spec_engines(), text, ranges, e.spec_engines().len() as int);
}

/// An `Or` query matches an item exactly when one of its alternatives does.
pub proof fn lemma_or_matches_when_one_does(e: OrEngine, text: Seq<char>, ranges: Option<Seq<(usize, usize)>>)
    ensures
        e.spec_match_or(text, ranges) is Some <==> exists|j: int|
            0 <= j < e.spec_engines().len() && (#[trigger] e.spec_engines()[j].spec_match(text, ranges)) is Some,
{
    lemma_or_best_some(e.spec_engines(), text, ranges, e.spec_engines().len() as int);
}

/// An `And` query of at least one term matches an item exactly when every
/// term does.
pub proof fn lemma_and_matches_when_all_do(e: AndEngine, text: Seq<char>, ranges: Option<Seq<(usize, usize)>>)
    requires
        e.spec_engines().len() >= 1,
    ensures
        e.spec_match_and(text, ranges) is Some <==> forall|j: int|
            0 <= j < e.spec_engines().len() ==> (#[trigger] e.spec_engines()[j].spec_match(text, ranges)) is Some,
{
    let es = e.spec_engines();
    let rs = and_results(es, text, ranges);
    assert forall|j: int| 0 <= j < rs.len() implies rs[j] == #[trigger] es[j].spec_match(text, ranges) by {}
    if rs.len() == 1 {
        assert(rs[0] == es[0].spec_match(text, ranges));
    } else if exists|k: int| 0 <= k < rs.len() && rs[k] is None {
        let k = choose|k: int| 0 <= k < rs.len() && rs[k] is None;
        assert(es[k].spec_match(text, ranges) is None);
    } else {
        assert forall|j: int| 0 <= j < es.len() implies (#[trigger] es[j].spec_match(text, ranges)) is Some by {
            assert(!(rs[j] is None));
        }
    }
}

} // verus!
