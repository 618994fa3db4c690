//! Prefilters running before the alignment to skip unmatchable items cheaply.
use vstd::prelude::*;

use crate::fuzzy_matcher::arinae::atom::Atom;

verus! {

/// First position at or after `j` holding an atom equal to `c`.
pub open spec fn spec_find_from<C: Atom>(cho: Seq<C>, c: C, rc: bool, j: int) -> Option<int>
    decreases cho.len() - j,
{
    if j >= cho.len() || j < 0 {
        None
    } else if c.spec_eq(cho[j], rc) {
        Some(j)
    } else {
        spec_find_from(cho, c, rc, j + 1)
    }
}

/// Scanning the pattern tail from `k` with the choice cursor at `ci`, whether
/// at least `min_tail` pattern atoms are found in order (an atom that is not
/// found leaves the cursor where it was).
pub open spec fn spec_tail_scan<C: Atom>(
    pat: Seq<C>,
    cho: Seq<C>,
    rc: bool,
    k: int,
    ci: int,
    matched: int,
    min_tail: int,
) -> bool
    decreases pat.len() - k,
{
    if k >= pat.len() || k < 1 {
        false
    } else {
        match spec_find_from(cho, pat[k], rc, ci) {
            Some(p) => if matched + 1 >= min_tail {
                true
            } else {
                spec_tail_scan(pat, cho, rc, k + 1, p + 1, matched + 1, min_tail)
            },
            None => spec_tail_scan(pat, cho, rc, k + 1, ci, matched, min_tail),
        }
    }
}

/// The pattern is at most two atoms longer than the choice, its first atom
/// occurs in the choice, and at least `(n - 1) / 2` of the remaining atoms
/// occur in order.
pub open spec fn spec_cheap_typo_prefilter<C: Atom>(pat: Seq<C>, cho: Seq<C>, rc: bool) -> bool {
    let n = pat.len();
    let m = cho.len();
    if n > m + 2 || n == 0 {
        false
    } else if spec_find_from(cho, pat[0], rc, 0) is None {
        false
    } else if n == 1 || (n - 1) / 2 == 0 {
        true
    } else {
        spec_tail_scan(pat, cho, rc, 1, 0, 0, (n - 1) / 2)
    }
}

proof fn lemma_first_hit<C: Atom>(cho: Seq<C>, c: C, rc: bool, j: int, p: int)
    requires
        0 <= j <= p < cho.len(),
        c.spec_eq(cho[p], rc),
        forall|k: int| j <= k < p ==> !c.spec_eq(#[trigger] cho[k], rc),
    ensures
        spec_find_from(cho, c, rc, j) == Some(p),
    decreases p - j,
{
    if j < p {
        lemma_first_hit(cho, c, rc, j + 1, p);
    }
}

proof fn lemma_no_hit<C: Atom>(cho: Seq<C>, c: C, rc: bool, j: int)
    requires
        0 <= j,
        forall|k: int| j <= k < cho.len() ==> !c.spec_eq(#[trigger] cho[k], rc),
    ensures
        spec_find_from(cho, c, rc, j) is None,
    decreases cho.len() - j,
{
    if j < cho.len() {
        lemma_no_hit(cho, c, rc, j + 1);
    }
}

/// The first position at or after `start` holding an atom equal to `c`.
fn find_from<C: Atom>(cho: &[C], c: C, rc: bool, start: usize) -> (r: Option<usize>)
    requires
        start <= cho@.len(),
    ensures
        match r {
            Some(p) => spec_find_from(cho@, c, rc, start as int) == Some(p as int) && p < cho@.len(),
            None => spec_find_from(cho@, c, rc, start as int) is None,
        },
{
    let mut j = start;
    while j < cho.len()
        invariant
            start <= j <= cho@.len(),
            spec_find_from(cho@, c, rc, start as int) == spec_find_from(cho@, c, rc, j as int),
        decreases cho@.len() - j,
    {
        if c.eq(cho[j], rc) {
            return Some(j);
        }
        j += 1;
    }
    None
}

/// Cheap prefilter for typo-tolerant matching: rejects choices that clearly
/// cannot produce a positive score. It is lenient: false positives are fine,
/// false negatives would lose matches.
pub fn cheap_typo_prefilter<C: Atom>(pattern: &[C], choice: &[C], respect_case: bool) -> (r: bool)
    requires
        pattern@.len() > 0,
    ensures
        r == spec_cheap_typo_prefilter(pattern@, choice@, respect_case),
{
    let n = pattern.len();
    let m = choice.len();
    if n as u128 > m as u128 + 2 {
        return false;
    }
    let first = pattern[0];
    match first.find_first_in(choice, respect_case) {
        Some(p) => {
            proof {
                lemma_first_hit(choice@, first, respect_case, 0, p as int);
            }
        },
        None => {
            proof {
                lemma_no_hit(choice@, first, respect_case, 0);
            }
            return false;
        },
    }
    if n == 1 {
        return true;
    }
    let min_tail = (n - 1) / 2;
    if min_tail == 0 {
        return true;
    }
    let mut matched: usize = 0;
    let mut ci: usize = 0;
    let mut k: usize = 1;
    while k < n
        invariant
            n == pattern@.len(),
            m == choice@.len(),
            1 <= k <= n,
            ci <= m,
            matched < min_tail,
            min_tail == (n - 1) / 2,
            spec_cheap_typo_prefilter(pattern@, choice@, respect_case) == spec_tail_scan(
                pattern@,
                choice@,
                respect_case,
                k as int,
                ci as int,
                matched as int,
                min_tail as int,
            ),
        decreases n - k,
    {
        match find_from(choice, pattern[k], respect_case, ci) {
            Some(p) => {
                matched += 1;
                ci = p + 1;
            },
            None => {},
        }
        if matched >= min_tail {
            return true;
        }
        k += 1;
    }
    false
}

} // verus!
