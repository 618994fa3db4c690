//! SkimV3 fuzzy matching algorithm.
//!
//! Alignment with affine gap penalties and context-sensitive bonuses, in the
//! manner of Smith-Waterman. Each DP cell holds a 16-bit score plus a 2-bit
//! direction tag for traceback. The alignment is semi-global: the pattern
//! must be fully consumed (with typos a pattern character may also be
//! substituted or skipped, at a penalty), but the alignment can start and
//! end anywhere in the choice.
//!
//! Cells are only computed inside a per-row column band: in exact mode the
//! band comes from the first/last possible match column of each pattern
//! character, in typo mode from a diagonal envelope. Two consecutive rows
//! without a positive cell end the search.
use vstd::prelude::*;

use crate::fuzzy_matcher::arinae::matrix::{cell_zero, lemma_cell_zero, spec_cell_zero, Cell, Dir};
use crate::fuzzy_matcher::{first_or_zero, last_or_zero, FuzzyMatcher, IndexType, MatchIndices, ScoreType};
use crate::text::{
    eq_ignore_ascii_case, eq_lowercase, is_ascii_char, is_ascii_lower, spec_eq_ignore_ascii_case,
    spec_is_ascii_char, spec_is_ascii_lower, str_to_chars, unicode_lowercase,
};
use crate::CaseMatching;

verus! {

// ---------------------------------------------------------------------------
// Scoring constants
// ---------------------------------------------------------------------------

pub type Score = i16;

/// Points awarded for each correctly matched character.
pub const MATCH_BONUS: Score = 18;

/// Extra bonus when the match is at position 0 of the choice string.
pub const START_OF_STRING_BONUS: Score = 12;

/// Extra bonus when the match follows a word separator.
pub const START_OF_WORD_BONUS: Score = 8;

/// Extra bonus for a camelCase transition.
pub const CAMEL_CASE_BONUS: Score = 6;

/// Bonus for each additional consecutive matched character.
pub const CONSECUTIVE_BONUS: Score = 8;

/// Cost to open a gap (skip characters in choice).
pub const GAP_OPEN: Score = 6;

/// Cost to extend a gap by one more character.
pub const GAP_EXTEND: Score = 2;

pub const TYPO_PENALTY: Score = 4;

/// Penalty for aligning a pattern char to a different choice char (typos only).
pub const MISMATCH_PENALTY: Score = 12;

/// Maximum pattern length supported by exact-mode banding.
pub const MAX_PAT_LEN: usize = 16;

/// Maximum pattern length in typo mode; longer patterns would overflow the
/// 16-bit cell scores.
pub const TYPO_MAX_PAT_LEN: usize = 800;

/// Extra columns around the diagonal in typo-mode banding.
pub const TYPO_BAND_SLACK: usize = 4;

// ---------------------------------------------------------------------------
// Character helpers
// ---------------------------------------------------------------------------

/// Case-insensitive character equality: ASCII folding for two ASCII
/// characters, Unicode lowercase comparison otherwise.
pub open spec fn spec_eq_ignore_case(a: char, b: char) -> bool {
    if spec_is_ascii_char(a) && spec_is_ascii_char(b) {
        spec_eq_ignore_ascii_case(a, b)
    } else {
        unicode_lowercase(a) == unicode_lowercase(b)
    }
}

pub open spec fn spec_atom_eq(a: char, b: char, respect_case: bool) -> bool {
    if respect_case {
        a == b
    } else {
        spec_eq_ignore_case(a, b)
    }
}

pub fn eq_ignore_case(a: char, b: char) -> (r: bool)
    ensures
        r == spec_eq_ignore_case(a, b),
{
    if is_ascii_char(a) && is_ascii_char(b) {
        eq_ignore_ascii_case(a, b)
    } else {
        eq_lowercase(a, b)
    }
}

pub fn atom_eq(a: char, b: char, respect_case: bool) -> (r: bool)
    ensures
        r == spec_atom_eq(a, b, respect_case),
{
    if respect_case {
        a == b
    } else {
        eq_ignore_case(a, b)
    }
}

/// Word separators: space, `-`, `.`, `/`, `\` and `_`.
pub open spec fn spec_is_separator(c: char) -> bool {
    c == ' ' || c == '-' || c == '.' || c == '/' || c == '\\' || c == '_'
}

/// Check if a character is a word separator for bonus computation.
pub fn is_separator(c: char) -> (r: bool)
    ensures
        r == spec_is_separator(c),
{
    c == ' ' || c == '-' || c == '.' || c == '/' || c == '\\' || c == '_'
}

/// Bonus for a match at choice position `k`: the start-of-string bonus at 0,
/// otherwise the start-of-word bonus after a separator plus the camel-case
/// bonus on a lowercase-to-non-lowercase transition.
pub open spec fn spec_bonus(cho: Seq<char>, k: int) -> int {
    if k == 0 {
        START_OF_STRING_BONUS as int
    } else {
        (if spec_is_separator(cho[k - 1]) { START_OF_WORD_BONUS as int } else { 0 }) + (if spec_is_ascii_lower(
            cho[k - 1],
        ) && !spec_is_ascii_lower(cho[k]) {
            CAMEL_CASE_BONUS as int
        } else {
            0
        })
    }
}

pub fn precompute_bonuses(cho: &[char], buf: &mut Vec<Score>)
    ensures
        final(buf)@.len() == cho@.len(),
        forall|k: int| 0 <= k < cho@.len() ==> #[trigger] final(buf)@[k] == spec_bonus(cho@, k),
{
    buf.clear();
    let mut k: usize = 0;
    while k < cho.len()
        invariant
            k <= cho@.len(),
            buf@.len() == k,
            forall|q: int| 0 <= q < k ==> #[trigger] buf@[q] == spec_bonus(cho@, q),
        decreases cho.len() - k,
    {
        let b: Score = if k == 0 {
            START_OF_STRING_BONUS
        } else {
            let prev = cho[k - 1];
            let cur = cho[k];
            let w: Score = if is_separator(prev) { START_OF_WORD_BONUS } else { 0 };
            let c: Score = if is_ascii_lower(prev) && !is_ascii_lower(cur) { CAMEL_CASE_BONUS } else { 0 };
            w + c
        };
        buf.push(b);
        k += 1;
    }
}

// ---------------------------------------------------------------------------
// Prefilter
// ---------------------------------------------------------------------------

/// First position at or after `j` where `c` occurs in `cho`.
pub open spec fn spec_find_from(cho: Seq<char>, c: char, rc: bool, j: int) -> Option<int>
    decreases cho.len() - j,
{
    if j >= cho.len() || j < 0 {
        None
    } else if spec_atom_eq(c, cho[j], rc) {
        Some(j)
    } else {
        spec_find_from(cho, c, rc, j + 1)
    }
}

/// Counts, scanning the pattern tail from `k` with the choice cursor at `ci`,
/// whether at least `min_tail` pattern characters are found in order
/// (a character that is not found leaves the cursor where it was).
pub open spec fn spec_tail_scan(pat: Seq<char>, cho: Seq<char>, rc: bool, k: int, ci: int, matched: int, min_tail: int) -> bool
    decreases pat.len() - k,
{
    if k >= pat.len() || k < 1 {
        false
    } else {
        match spec_find_from(cho, pat[k], rc, ci) {
            Some(p) => if matched + 1 >= min_tail {
                true
            } else {
                spec_tail_scan(pat, cho, rc, k + 1, p + 1, matched + 1, min_tail)
            },
            None => spec_tail_scan(pat, cho, rc, k + 1, ci, matched, min_tail),
        }
    }
}

/// Cheap prefilter for typo-tolerant matching: the pattern is at most two
/// characters longer than the choice, its first character occurs in the
/// choice, and at least `(n - 1) / 2` of the remaining characters occur in
/// order.
pub open spec fn spec_cheap_typo_prefilter(pat: Seq<char>, cho: Seq<char>, rc: bool) -> bool {
    let n = pat.len();
    let m = cho.len();
    if n > m + 2 || n == 0 {
        false
    } else if spec_find_from(cho, pat[0], rc, 0) is None {
        false
    } else if n == 1 || (n - 1) / 2 == 0 {
        true
    } else {
        spec_tail_scan(pat, cho, rc, 1, 0, 0, (n - 1) / 2)
    }
}

fn find_from(cho: &[char], c: char, rc: bool, start: usize) -> (r: Option<usize>)
    requires
        start <= cho@.len(),
    ensures
        match r {
            Some(p) => spec_find_from(cho@, c, rc, start as int) == Some(p as int) && p < cho@.len() && p
                < usize::MAX,
            None => spec_find_from(cho@, c, rc, start as int) is None,
        },
{
    let mut j = start;
    while j < cho.len()
        invariant
            start <= j <= cho@.len(),
            spec_find_from(cho@, c, rc, start as int) == spec_find_from(cho@, c, rc, j as int),
        decreases cho.len() - j,
    {
        if atom_eq(c, cho[j], rc) {
            return Some(j);
        }
        j += 1;
    }
    None
}

pub fn cheap_typo_prefilter(pattern: &[char], choice: &[char], respect_case: bool) -> (r: bool)
    requires
        pattern@.len() > 0,
    ensures
        r == spec_cheap_typo_prefilter(pattern@, choice@, respect_case),
{
    let n = pattern.len();
    let m = choice.len();
    if n as u128 > m as u128 + 2 {
        return false;
    }
    if find_from(choice, pattern[0], respect_case, 0).is_none() {
        return false;
    }
    if n == 1 {
        return true;
    }
    let min_tail = (n - 1) / 2;
    if min_tail == 0 {
        return true;
    }
    let mut matched: usize = 0;
    let mut ci: usize = 0;
    let mut k: usize = 1;
    while k < n
        invariant
            n == pattern@.len(),
            m == choice@.len(),
            1 <= k <= n,
            ci <= m,
            matched < min_tail,
            min_tail == (n - 1) / 2,
            spec_cheap_typo_prefilter(pattern@, choice@, respect_case) == spec_tail_scan(
                pattern@,
                choice@,
                respect_case,
                k as int,
                ci as int,
                matched as int,
                min_tail as int,
            ),
        decreases n - k,
    {
        match find_from(choice, pattern[k], respect_case, ci) {
            Some(p) => {
                matched += 1;
                ci = p + 1;
                if matched >= min_tail {
                    return true;
                }
            },
            None => {},
        }
        k += 1;
    }
    false
}

// ---------------------------------------------------------------------------
// Banding helpers
// ---------------------------------------------------------------------------

/// Greedy leftmost 1-indexed match columns of the first `k` pattern characters.
pub open spec fn spec_first_cols_upto(pat: Seq<char>, cho: Seq<char>, rc: bool, k: int) -> Option<Seq<int>>
    decreases k,
{
    if k <= 0 {
        Some(Seq::empty())
    } else {
        match spec_first_cols_upto(pat, cho, rc, k - 1) {
            None => None,
            Some(v) => {
                let start = if k == 1 { 0 } else { v[k - 2] };
                match spec_find_from(cho, pat[k - 1], rc, start) {
                    Some(p) => Some(v.push(p + 1)),
                    None => None,
                }
            },
        }
    }
}

/// The earliest column (1-indexed) at which each pattern character can be
/// matched, each after the previous one; `None` for patterns longer than
/// `MAX_PAT_LEN` or when the pattern is not a subsequence.
pub open spec fn spec_first_match_cols(pat: Seq<char>, cho: Seq<char>, rc: bool) -> Option<Seq<int>> {
    if pat.len() > MAX_PAT_LEN {
        None
    } else {
        spec_first_cols_upto(pat, cho, rc, pat.len() as int)
    }
}

proof fn lemma_first_cols_shape(pat: Seq<char>, cho: Seq<char>, rc: bool, k: int)
    requires
        0 <= k <= pat.len(),
    ensures
        spec_first_cols_upto(pat, cho, rc, k) matches Some(v) ==> v.len() == k && forall|q: int|
            0 <= q < k ==> 1 <= #[trigger] v[q] <= cho.len(),
    decreases k,
{
    if k > 0 {
        lemma_first_cols_shape(pat, cho, rc, k - 1);
        match spec_first_cols_upto(pat, cho, rc, k - 1) {
            Some(v) => {
                let start = if k == 1 { 0 } else { v[k - 2] };
                lemma_find_from_range(cho, pat[k - 1], rc, start);
            },
            None => {},
        }
    }
}

proof fn lemma_find_from_range(cho: Seq<char>, c: char, rc: bool, j: int)
    ensures
        spec_find_from(cho, c, rc, j) matches Some(p) ==> j <= p < cho.len() && 0 <= p,
    decreases cho.len() - j,
{
    if 0 <= j < cho.len() && !spec_atom_eq(c, cho[j], rc) {
        lemma_find_from_range(cho, c, rc, j + 1);
    }
}

proof fn lemma_first_cols_none(pat: Seq<char>, cho: Seq<char>, rc: bool, k: int, k2: int)
    requires
        0 <= k <= k2,
        spec_first_cols_upto(pat, cho, rc, k) is None,
    ensures
        spec_first_cols_upto(pat, cho, rc, k2) is None,
    decreases k2 - k,
{
    if k < k2 {
        lemma_first_cols_none(pat, cho, rc, k, k2 - 1);
    }
}

pub fn compute_first_match_cols(pat: &[char], cho: &[char], respect_case: bool) -> (r: Option<Vec<usize>>)
    ensures
        match r {
            Some(v) => spec_first_match_cols(pat@, cho@, respect_case) == Some(v@.map_values(|x: usize| x as int)),
            None => spec_first_match_cols(pat@, cho@, respect_case) is None,
        },
{
    let n = pat.len();
    if n > MAX_PAT_LEN {
        return None;
    }
    let mut first: Vec<usize> = Vec::new();
    let mut start: usize = 0;
    let mut i: usize = 0;
    while i < n
        invariant
            n == pat@.len(),
            n <= MAX_PAT_LEN,
            i <= n,
            first@.len() == i,
            start <= cho@.len(),
            i > 0 ==> start == first@[i - 1],
            i == 0 ==> start == 0,
            spec_first_cols_upto(pat@, cho@, respect_case, i as int) == Some(first@.map_values(|x: usize| x as int)),
        decreases n - i,
    {
        proof {
            lemma_find_from_range(cho@, pat@[i as int], respect_case, start as int);
        }
        match find_from(cho, pat[i], respect_case, start) {
            Some(pos) => {
                let ghost old_first = first@;
                first.push(pos + 1);
                start = pos + 1;
                proof {
                    assert(first@.map_values(|x: usize| x as int) =~= old_first.map_values(|x: usize| x as int).push(
                        pos + 1,
                    ));
                }
            },
            None => {
                proof {
                    lemma_first_cols_none(pat@, cho@, respect_case, i + 1, n as int);
                }
                return None;
            },
        }
        i += 1;
    }
    Some(first)
}

/// Last position strictly before `end` where `c` occurs in `cho`.
pub open spec fn spec_rfind_before(cho: Seq<char>, c: char, rc: bool, end: int) -> Option<int>
    decreases end,
{
    if end <= 0 || end > cho.len() {
        None
    } else if spec_atom_eq(c, cho[end - 1], rc) {
        Some(end - 1)
    } else {
        spec_rfind_before(cho, c, rc, end - 1)
    }
}

/// Greedy rightmost 1-indexed match columns of pattern characters `k..n`.
pub open spec fn spec_last_cols_from(pat: Seq<char>, cho: Seq<char>, rc: bool, k: int) -> Option<Seq<int>>
    decreases pat.len() - k,
{
    if k >= pat.len() || k < 0 {
        Some(Seq::empty())
    } else {
        match spec_last_cols_from(pat, cho, rc, k + 1) {
            None => None,
            Some(v) => {
                let end = if k + 1 >= pat.len() { cho.len() as int } else { v[0] - 1 };
                match spec_rfind_before(cho, pat[k], rc, end) {
                    Some(p) => Some(seq![p + 1] + v),
                    None => None,
                }
            },
        }
    }
}

/// The latest column (1-indexed) at which each pattern character can be
/// matched, each before the next one.
pub open spec fn spec_last_match_cols(pat: Seq<char>, cho: Seq<char>, rc: bool) -> Option<Seq<int>> {
    if pat.len() > MAX_PAT_LEN {
        None
    } else {
        spec_last_cols_from(pat, cho, rc, 0)
    }
}

proof fn lemma_rfind_range(cho: Seq<char>, c: char, rc: bool, end: int)
    ensures
        spec_rfind_before(cho, c, rc, end) matches Some(p) ==> 0 <= p < end && p < cho.len(),
    decreases end,
{
    if 0 < end <= cho.len() && !spec_atom_eq(c, cho[end - 1], rc) {
        lemma_rfind_range(cho, c, rc, end - 1);
    }
}

proof fn lemma_last_cols_shape(pat: Seq<char>, cho: Seq<char>, rc: bool, k: int)
    requires
        0 <= k <= pat.len(),
    ensures
        spec_last_cols_from(pat, cho, rc, k) matches Some(v) ==> v.len() == pat.len() - k && forall|q: int|
            0 <= q < v.len() ==> 1 <= #[trigger] v[q] <= cho.len(),
    decreases pat.len() - k,
{
    if k < pat.len() {
        lemma_last_cols_shape(pat, cho, rc, k + 1);
        match spec_last_cols_from(pat, cho, rc, k + 1) {
            Some(v) => {
                let end = if k + 1 >= pat.len() { cho.len() as int } else { v[0] - 1 };
                lemma_rfind_range(cho, pat[k], rc, end);
                match spec_rfind_before(cho, pat[k], rc, end) {
                    Some(p) => {
                        let w = seq![p + 1] + v;
                        assert forall|q: int| 0 <= q < w.len() implies 1 <= #[trigger] w[q] <= cho.len() by {
                            if q > 0 {
                                assert(w[q] == v[q - 1]);
                            }
                        }
                    },
                    None => {},
                }
            },
            None => {},
        }
    }
}

fn rfind_before(cho: &[char], c: char, rc: bool, end: usize) -> (r: Option<usize>)
    requires
        end <= cho@.len(),
    ensures
        match r {
            Some(p) => spec_rfind_before(cho@, c, rc, end as int) == Some(p as int),
            None => spec_rfind_before(cho@, c, rc, end as int) is None,
        },
{
    let mut e = end;
    while e > 0
        invariant
            e <= end <= cho@.len(),
            spec_rfind_before(cho@, c, rc, end as int) == spec_rfind_before(cho@, c, rc, e as int),
        decreases e,
    {
        if atom_eq(c, cho[e - 1], rc) {
            return Some(e - 1);
        }
        e -= 1;
    }
    None
}

proof fn lemma_last_cols_none(pat: Seq<char>, cho: Seq<char>, rc: bool, k: int, k2: int)
    requires
        0 <= k2 <= k <= pat.len(),
        spec_last_cols_from(pat, cho, rc, k) is None,
    ensures
        spec_last_cols_from(pat, cho, rc, k2) is None,
    decreases k - k2,
{
    if k2 < k {
        lemma_last_cols_none(pat, cho, rc, k, k2 + 1);
    }
}

pub fn compute_last_match_cols(pat: &[char], cho: &[char], respect_case: bool) -> (r: Option<Vec<usize>>)
    ensures
        match r {
            Some(v) => spec_last_match_cols(pat@, cho@, respect_case) == Some(v@.map_values(|x: usize| x as int)),
            None => spec_last_match_cols(pat@, cho@, respect_case) is None,
        },
{
    let n = pat.len();
    if n > MAX_PAT_LEN {
        return None;
    }
    let m = cho.len();
    // built back to front, then reversed
    let mut rev: Vec<usize> = Vec::new();
    let mut end: usize = m;
    let mut k: usize = n;
    while k > 0
        invariant
            n == pat@.len(),
            m == cho@.len(),
            n <= MAX_PAT_LEN,
            k <= n,
            end <= m,
            rev@.len() == n - k,
            spec_last_cols_from(pat@, cho@, respect_case, k as int) matches Some(v) && v == Seq::new(
                (n - k) as nat,
                |q: int| rev@[n - k - 1 - q] as int,
            ),
            k < n ==> end + 1 == rev@[n - k - 1],
            k == n ==> end == m,
        decreases k,
    {
        proof {
            lemma_rfind_range(cho@, pat@[k - 1], respect_case, end as int);
        }
        match rfind_before(cho, pat[k - 1], respect_case, end) {
            Some(pos) => {
                let ghost old_rev = rev@;
                rev.push(pos + 1);
                end = pos;
                proof {
                    let v = spec_last_cols_from(pat@, cho@, respect_case, k as int)->Some_0;
                    let w = spec_last_cols_from(pat@, cho@, respect_case, k - 1)->Some_0;
                    assert(w =~= seq![pos + 1] + v);
                    assert(w =~= Seq::new((n - k + 1) as nat, |q: int| rev@[n - k - q] as int));
                }
            },
            None => {
                proof {
                    lemma_last_cols_none(pat@, cho@, respect_case, k - 1, 0);
                }
                return None;
            },
        }
        k -= 1;
    }
    let mut last: Vec<usize> = Vec::new();
    let mut q: usize = 0;
    while q < n
        invariant
            rev@.len() == n,
            q <= n,
            last@.len() == q,
            forall|a: int| 0 <= a < q ==> #[trigger] last@[a] == rev@[n - 1 - a],
        decreases n - q,
    {
        last.push(rev[n - 1 - q]);
        q += 1;
    }
    proof {
        let v = spec_last_cols_from(pat@, cho@, respect_case, 0)->Some_0;
        assert(v =~= last@.map_values(|x: usize| x as int));
    }
    Some(last)
}

/// Row bounds after widening each row's upper bound so the next row's first
/// column can read its diagonal: `hi[i] = max(last[i], first[i+1] - 1)` when
/// `first[i+1] > 1`.
pub open spec fn spec_hi_pass(first: Seq<int>, last: Seq<int>, n: int, i: int) -> int {
    if i < n - 1 && first[i + 1] > 1 {
        if last[i] >= first[i + 1] - 1 { last[i] } else { first[i + 1] - 1 }
    } else {
        last[i]
    }
}

/// Row lower bounds after limiting each row's start to one past the previous
/// row's (widened) upper bound.
pub open spec fn spec_lo_pass(first: Seq<int>, last: Seq<int>, n: int, i: int) -> int {
    if i >= 1 {
        let h = spec_hi_pass(first, last, n, i - 1) + 1;
        if first[i] <= h { first[i] } else { h }
    } else {
        first[i]
    }
}

/// Final lower bound of row `i` (0-indexed), clamped to `1..=m`.
pub open spec fn spec_row_lo(first: Seq<int>, last: Seq<int>, n: int, m: int, i: int) -> int {
    let l = spec_lo_pass(first, last, n, i);
    let l = if l >= 1 { l } else { 1 };
    if l <= m { l } else { m }
}

/// Final upper bound of row `i` (0-indexed), at least the lower bound and at most `m`.
pub open spec fn spec_row_hi(first: Seq<int>, last: Seq<int>, n: int, m: int, i: int) -> int {
    let h = spec_hi_pass(first, last, n, i);
    let lo = spec_row_lo(first, last, n, m, i);
    let h = if h >= lo { h } else { lo };
    if h <= m { h } else { m }
}

/// Per-row column bounds `(lo, hi)` for the row-major exact DP.
pub fn compute_row_col_bounds(n: usize, m: usize, first_match: &Vec<usize>, last_match: &Vec<usize>) -> (r: (Vec<usize>, Vec<usize>))
    requires
        first_match@.len() == n,
        last_match@.len() == n,
        forall|k: int| 0 <= k < n ==> 1 <= #[trigger] first_match@[k] <= m,
        forall|k: int| 0 <= k < n ==> 1 <= #[trigger] last_match@[k] <= m,
    ensures
        r.0@.len() == n,
        r.1@.len() == n,
        forall|k: int| 0 <= k < n ==> #[trigger] r.0@[k] == spec_row_lo(
            first_match@.map_values(|x: usize| x as int),
            last_match@.map_values(|x: usize| x as int),
            n as int,
            m as int,
            k,
        ),
        forall|k: int| 0 <= k < n ==> #[trigger] r.1@[k] == spec_row_hi(
            first_match@.map_values(|x: usize| x as int),
            last_match@.map_values(|x: usize| x as int),
            n as int,
            m as int,
            k,
        ),
{
    let ghost fs = first_match@.map_values(|x: usize| x as int);
    let ghost ls = last_match@.map_values(|x: usize| x as int);
    let mut lo: Vec<usize> = Vec::new();
    let mut hi: Vec<usize> = Vec::new();
    let mut i: usize = 0;
    while i < n
        invariant
            first_match@.len() == n,
            last_match@.len() == n,
            fs == first_match@.map_values(|x: usize| x as int),
            ls == last_match@.map_values(|x: usize| x as int),
            forall|k: int| 0 <= k < n ==> 1 <= #[trigger] first_match@[k] <= m,
            forall|k: int| 0 <= k < n ==> 1 <= #[trigger] last_match@[k] <= m,
            i <= n,
            lo@.len() == i,
            hi@.len() == i,
            forall|k: int| 0 <= k < i ==> #[trigger] lo@[k] == spec_row_lo(fs, ls, n as int, m as int, k),
            forall|k: int| 0 <= k < i ==> #[trigger] hi@[k] == spec_row_hi(fs, ls, n as int, m as int, k),
        decreases n - i,
    {
        // widened upper bound of this row and of the previous one
        let h_here: usize = if i + 1 < n && first_match[i + 1] > 1 {
            if last_match[i] >= first_match[i + 1] - 1 { last_match[i] } else { first_match[i + 1] - 1 }
        } else {
            last_match[i]
        };
        let l_pass: usize = if i >= 1 {
            let h_prev: usize = if first_match[i] > 1 {
                if last_match[i - 1] >= first_match[i] - 1 { last_match[i - 1] } else { first_match[i] - 1 }
            } else {
                last_match[i - 1]
            };
            if first_match[i] - 1 <= h_prev { first_match[i] } else { h_prev + 1 }
        } else {
            first_match[i]
        };
        let l1 = if l_pass >= 1 { l_pass } else { 1 };
        let l = if l1 <= m { l1 } else { m };
        let h1 = if h_here >= l { h_here } else { l };
        let h = if h1 <= m { h1 } else { m };
        lo.push(l);
        hi.push(h);
        i += 1;
    }
    (lo, hi)
}

/// Banding information shared by the score-only and full DP.
pub struct BandingInfo {
    /// Per-row column bounds (only present in exact mode).
    pub row_bounds: Option<(Vec<usize>, Vec<usize>)>,
    /// 1-indexed column of the first match of `pat[0]` in `cho`.
    pub j_first: usize,
    /// Bandwidth for typo-mode diagonal banding (0 in exact mode).
    pub bandwidth: usize,
    /// Minimum number of true (non-substitution) matches to accept.
    pub min_true_matches: usize,
}

/// Find the 1-indexed column of the first occurrence of `pat[0]` in `cho`.
pub fn find_first_char(pat: &[char], cho: &[char], respect_case: bool) -> (r: Option<usize>)
    requires
        pat@.len() > 0,
    ensures
        match r {
            Some(c) => spec_find_from(cho@, pat@[0], respect_case, 0) == Some(c - 1) && 1 <= c <= cho@.len(),
            None => spec_find_from(cho@, pat@[0], respect_case, 0) is None,
        },
{
    match find_from(cho, pat[0], respect_case, 0) {
        Some(p) => Some(p + 1),
        None => None,
    }
}

/// Row-major V-shaped band of typo mode at row `i` (1-indexed):
/// the lower bound follows the diagonal minus the bandwidth, the upper bound is `m`.
pub open spec fn spec_typo_vband_lo(i: int, bandwidth: int, j_first: int) -> int {
    let j = i + j_first - 1;
    let lo = if j >= bandwidth { j - bandwidth } else { 0 };
    if lo >= 1 { lo } else { 1 }
}

pub fn typo_vband_row(i: usize, m: usize, bandwidth: usize, j_first: usize) -> (r: (usize, usize))
    requires
        1 <= i <= bandwidth,
        1 <= j_first,
    ensures
        r.0 == spec_typo_vband_lo(i as int, bandwidth as int, j_first as int),
        r.1 == m,
{
    // j = i + j_first - 1; lo = j - bandwidth when j >= bandwidth
    let lo0 = if j_first - 1 >= bandwidth - i { (j_first - 1) - (bandwidth - i) } else { 0 };
    let lo = if lo0 >= 1 { lo0 } else { 1 };
    (lo, m)
}

// ---------------------------------------------------------------------------
// The dynamic programme
// ---------------------------------------------------------------------------

/// Score and direction of one DP cell computed from its three neighbours
/// (diagonal, up, left); `diag_path`, `up_path` and `left_path` say whether
/// those neighbours lie on an alignment.
///
/// The alignment is semi-global: every step extends an alignment of the
/// earlier pattern characters (the neighbour it comes from lies on one),
/// except on the first row where a diagonal step may begin an alignment at
/// any column. A row never starts an alignment of its own, and an alignment
/// stays alive whatever its score. The direction is `NoPath` exactly when no
/// step is possible.
///
/// With typos the diagonal step is a match or a substitution, the up step
/// skips a pattern character, and among equal candidates diagonal beats up
/// beats left; scores may fall below 0. Without typos the diagonal step is a
/// match only, there is no up step, scores do not go below 0 and the
/// diagonal wins ties.
pub open spec fn spec_compute_cell(
    typos: bool,
    is_match: bool,
    is_first: bool,
    bonus_j: int,
    diag: int,
    diag_was_diag: bool,
    diag_path: bool,
    up: int,
    up_path: bool,
    left: int,
    left_was_diag: bool,
    left_path: bool,
) -> (int, Dir) {
    let bonus = (bonus_j + if diag_was_diag { CONSECUTIVE_BONUS as int } else { 0 }) * if is_first {
        2int
    } else {
        1int
    };
    let left_val = left - if left_was_diag { GAP_OPEN as int } else { GAP_EXTEND as int };
    if typos {
        let diag_val = if is_match {
            diag + MATCH_BONUS + bonus
        } else {
            diag - MISMATCH_PENALTY
        };
        let up_val = up - TYPO_PENALTY;
        let has_diag = is_first || diag_path;
        if has_diag && (!up_path || diag_val >= up_val) && (!left_path || diag_val >= left_val) {
            (diag_val, Dir::Diag)
        } else if up_path && (!left_path || up_val >= left_val) {
            (up_val, Dir::Up)
        } else if left_path {
            (left_val, Dir::Left)
        } else {
            (0, Dir::NoPath)
        }
    } else {
        let diag_val = diag + MATCH_BONUS + bonus;
        if is_match && (is_first || diag_path) && (!left_path || diag_val >= left_val) {
            (diag_val, Dir::Diag)
        } else if left_path {
            (if left_val > 0 { left_val } else { 0 }, Dir::Left)
        } else {
            (0, Dir::NoPath)
        }
    }
}

fn compute_cell(
    typos: bool,
    is_match: bool,
    is_first: bool,
    bonus_j: i32,
    diag: i32,
    diag_was_diag: bool,
    diag_path: bool,
    up: i32,
    up_path: bool,
    left: i32,
    left_was_diag: bool,
    left_path: bool,
) -> (r: (i32, Dir))
    requires
        0 <= bonus_j <= 100,
        -100000 <= diag <= 100000,
        -100000 <= up <= 100000,
        -100000 <= left <= 100000,
    ensures
        (r.0 as int, r.1) == spec_compute_cell(
            typos,
            is_match,
            is_first,
            bonus_j as int,
            diag as int,
            diag_was_diag,
            diag_path,
            up as int,
            up_path,
            left as int,
            left_was_diag,
            left_path,
        ),
{
    let consecutive: i32 = if diag_was_diag { CONSECUTIVE_BONUS as i32 } else { 0 };
    let mult: i32 = if is_first { 2 } else { 1 };
    let bonus: i32 = (bonus_j + consecutive) * mult;
    let pen: i32 = if left_was_diag { GAP_OPEN as i32 } else { GAP_EXTEND as i32 };
    let left_val: i32 = left - pen;
    if typos {
        let diag_val: i32 = if is_match {
            diag + MATCH_BONUS as i32 + bonus
        } else {
            diag - MISMATCH_PENALTY as i32
        };
        let up_val: i32 = up - TYPO_PENALTY as i32;
        let has_diag = is_first || diag_path;
        if has_diag && (!up_path || diag_val >= up_val) && (!left_path || diag_val >= left_val) {
            (diag_val, Dir::Diag)
        } else if up_path && (!left_path || up_val >= left_val) {
            (up_val, Dir::Up)
        } else if left_path {
            (left_val, Dir::Left)
        } else {
            (0, Dir::NoPath)
        }
    } else {
        let diag_val: i32 = diag + MATCH_BONUS as i32 + bonus;
        if is_match && (is_first || diag_path) && (!left_path || diag_val >= left_val) {
            (diag_val, Dir::Diag)
        } else if left_path {
            (if left_val > 0 { left_val } else { 0 }, Dir::Left)
        } else {
            (0, Dir::NoPath)
        }
    }
}

/// Everything the DP of one (pattern, choice) pair depends on: the two
/// character sequences, the case mode, the typo mode, the first column that
/// can hold a match (`js`, 1-indexed) and for each pattern row `i` (at
/// index `i - 1`) the inclusive column band `lo..=hi` that is computed.
pub ghost struct DpCtx {
    pub cho: Seq<char>,
    pub pat: Seq<char>,
    pub rc: bool,
    pub typos: bool,
    pub js: int,
    pub lo: Seq<int>,
    pub hi: Seq<int>,
}

pub open spec fn dp_wf(c: DpCtx) -> bool {
    &&& c.typos ==> full_width_bands(c)
    &&& 1 <= c.js <= c.cho.len()
    &&& c.lo.len() == c.pat.len()
    &&& c.hi.len() == c.pat.len()
    &&& forall|k: int| 0 <= k < c.pat.len() ==> c.js <= #[trigger] c.lo[k] && c.hi[k] <= c.cho.len()
}

pub open spec fn in_band(c: DpCtx, i: int, j: int) -> bool {
    1 <= i <= c.pat.len() && c.lo[i - 1] <= j <= c.hi[i - 1]
}

/// Cell `(i, j)` of the DP (row `i` for pattern character `i - 1`, column `j`
/// for choice character `j - 1`). Row 0 and every cell outside the row's band
/// hold score 0 and no direction.
pub open spec fn dp_cell(c: DpCtx, i: int, j: int) -> (int, Dir)
    decreases i, j,
{
    if i <= 0 || j < 1 || !in_band(c, i, j) {
        (0, Dir::NoPath)
    } else {
        let d = dp_cell(c, i - 1, j - 1);
        let u = dp_cell(c, i - 1, j);
        let l = dp_cell(c, i, j - 1);
        spec_compute_cell(
            c.typos,
            spec_atom_eq(c.pat[i - 1], c.cho[j - 1], c.rc),
            i == 1,
            spec_bonus(c.cho, j - 1),
            d.0,
            d.1 == Dir::Diag,
            d.1 != Dir::NoPath,
            u.0,
            u.1 != Dir::NoPath,
            l.0,
            l.1 == Dir::Diag,
            l.1 != Dir::NoPath,
        )
    }
}

proof fn lemma_bonus_bounds(cho: Seq<char>, k: int)
    ensures
        0 <= spec_bonus(cho, k) <= 14,
{
}

/// Scores of row `i` lie in `-4i - 8 ..= 40i + 6` (and are never negative
/// without typos). A cell without direction scores 0; a cell with a
/// direction lies in its row's band, and with typos every cell of a band has
/// one.
proof fn lemma_cell_bounds(c: DpCtx, i: int, j: int)
    requires
        dp_wf(c),
        i >= 0,
        j >= 0,
    ensures
        -4 * i - 8 <= dp_cell(c, i, j).0 <= 40 * i + 6,
        !c.typos ==> dp_cell(c, i, j).0 >= 0,
        dp_cell(c, i, j).1 == Dir::NoPath ==> dp_cell(c, i, j).0 == 0,
        dp_cell(c, i, j).1 != Dir::NoPath ==> i >= 1 && j >= 1 && in_band(c, i, j),
        c.typos && i >= 1 && j >= 1 && in_band(c, i, j) ==> dp_cell(c, i, j).1 != Dir::NoPath,
    decreases i, j,
{
    if i > 0 && j >= 1 && in_band(c, i, j) {
        lemma_cell_bounds(c, i - 1, j - 1);
        lemma_cell_bounds(c, i - 1, j);
        lemma_cell_bounds(c, i, j - 1);
        lemma_bonus_bounds(c.cho, j - 1);
        if i == 1 {
            assert(dp_cell(c, 0, j - 1) == (0int, Dir::NoPath));
        }
        if c.typos && i >= 2 {
            assert(c.lo[i - 2] == c.js && c.hi[i - 2] == c.cho.len());
            assert(c.lo[i - 1] == c.js && c.hi[i - 1] == c.cho.len());
            assert(in_band(c, i - 1, j));
        }
    }
}

/// Whether row `i` holds a cell with a positive score.
pub open spec fn row_positive(c: DpCtx, i: int) -> bool {
    exists|j: int| c.js <= j <= c.cho.len() && (#[trigger] dp_cell(c, i, j)).0 > 0
}

/// The search stops early after two consecutive rows without a positive cell.
pub open spec fn early_stop(c: DpCtx) -> bool {
    exists|k: int| 1 <= k < c.pat.len() && !#[trigger] row_positive(c, k) && !row_positive(c, k + 1)
}

/// Best score in the last row over columns `js..=j`, with the first column
/// where it is reached (a later column must score strictly more to win);
/// `(0, 0)` when no column scores above 0.
pub open spec fn best_upto(c: DpCtx, j: int) -> (int, int)
    decreases j,
{
    if j < c.js || j < 1 {
        (0, 0)
    } else {
        let prev = best_upto(c, j - 1);
        let s = dp_cell(c, c.pat.len() as int, j).0;
        if s > prev.0 {
            (s, j)
        } else {
            prev
        }
    }
}

pub open spec fn dp_best(c: DpCtx) -> (int, int) {
    best_upto(c, c.cho.len() as int)
}

/// Traceback from `(i, j)`: the matched choice positions (ascending), the
/// number of true matches among them and the column where it stops.
pub open spec fn trace(c: DpCtx, i: int, j: int) -> (Seq<usize>, int, int)
    decreases i + j,
{
    if i > 0 && j >= c.js && j >= 1 {
        let d = dp_cell(c, i, j).1;
        if d == Dir::Diag {
            let sub = trace(c, i - 1, j - 1);
            if spec_atom_eq(c.pat[i - 1], c.cho[j - 1], c.rc) {
                (sub.0.push((j - 1) as usize), sub.1 + 1, sub.2)
            } else {
                sub
            }
        } else if d == Dir::Up {
            trace(c, i - 1, j)
        } else if d == Dir::Left {
            trace(c, i, j - 1)
        } else {
            (Seq::empty(), 0, j)
        }
    } else {
        (Seq::empty(), 0, j)
    }
}

/// Least number of true matches an alignment needs: half the pattern
/// (rounded up) with typos, none without.
pub open spec fn min_true_matches(c: DpCtx) -> int {
    if c.typos {
        ((c.pat.len() + 1) / 2) as int
    } else {
        0
    }
}

/// A stored cell holds the given score and direction.
pub open spec fn cell_is(x: Cell, s: (int, Dir)) -> bool {
    x@.0 as int == s.0 && x@.1 == s.1
}

/// The DP context of a pattern and choice: the first match column and the
/// per-row bands. Without typos the bands come from the first and last
/// possible match columns (`None` when the pattern is not a subsequence or is
/// longer than `MAX_PAT_LEN`); with typos every row runs from the first
/// occurrence of the first pattern character (`None` when it does not occur)
/// to the end of the choice, bounded below by a diagonal envelope.
pub open spec fn spec_banding(pat: Seq<char>, cho: Seq<char>, rc: bool, typos: bool) -> Option<DpCtx> {
    let n = pat.len() as int;
    let m = cho.len() as int;
    if !typos {
        match (spec_first_match_cols(pat, cho, rc), spec_last_match_cols(pat, cho, rc)) {
            (Some(f), Some(l)) => {
                let js = f[0];
                Some(
                    DpCtx {
                        cho,
                        pat,
                        rc,
                        typos,
                        js,
                        lo: Seq::new(
                            n as nat,
                            |k: int|
                                if spec_row_lo(f, l, n, m, k) >= js {
                                    spec_row_lo(f, l, n, m, k)
                                } else {
                                    js
                                },
                        ),
                        hi: Seq::new(n as nat, |k: int| spec_row_hi(f, l, n, m, k)),
                    },
                )
            },
            _ => None,
        }
    } else {
        match spec_find_from(cho, pat[0], rc, 0) {
            Some(p) => {
                let js = p + 1;
                Some(
                    DpCtx {
                        cho,
                        pat,
                        rc,
                        typos,
                        js,
                        lo: Seq::new(
                            n as nat,
                            |k: int|
                                if spec_typo_vband_lo(k + 1, n + TYPO_BAND_SLACK, js) >= js {
                                    spec_typo_vband_lo(k + 1, n + TYPO_BAND_SLACK, js)
                                } else {
                                    js
                                },
                        ),
                        hi: Seq::new(n as nat, |k: int| m),
                    },
                )
            },
            None => None,
        }
    }
}

proof fn lemma_banding_wf(pat: Seq<char>, cho: Seq<char>, rc: bool, typos: bool)
    requires
        pat.len() >= 1,
    ensures
        spec_banding(pat, cho, rc, typos) matches Some(c) ==> dp_wf(c) && c.cho == cho && c.pat == pat && c.rc
            == rc && c.typos == typos,
{
    if !typos {
        lemma_first_cols_shape(pat, cho, rc, pat.len() as int);
    } else {
        lemma_find_from_range(cho, pat[0], rc, 0);
        if let Some(c) = spec_banding(pat, cho, rc, typos) {
            let n = pat.len() as int;
            assert forall|k: int| 0 <= k < n implies #[trigger] c.lo[k] == c.js && c.hi[k] == c.cho.len() by {
                assert(spec_typo_vband_lo(k + 1, n + TYPO_BAND_SLACK, c.js) <= c.js);
            }
        }
    }
}

/// The banding information describes the bands of `c`.
pub open spec fn banding_matches(b: BandingInfo, c: DpCtx) -> bool {
    &&& b.j_first == c.js
    &&& b.min_true_matches == min_true_matches(c)
    &&& if c.typos {
        &&& b.row_bounds is None
        &&& b.bandwidth == c.pat.len() + TYPO_BAND_SLACK
        &&& forall|k: int|
            0 <= k < c.pat.len() ==> (if spec_typo_vband_lo(k + 1, b.bandwidth as int, c.js) >= c.js {
                spec_typo_vband_lo(k + 1, b.bandwidth as int, c.js)
            } else {
                c.js
            }) == #[trigger] c.lo[k] && c.hi[k] == c.cho.len()
    } else {
        &&& b.bandwidth == 0
        &&& b.row_bounds matches Some(rb)
        &&& rb.0@.len() == c.pat.len()
        &&& rb.1@.len() == c.pat.len()
        &&& forall|k: int|
            0 <= k < c.pat.len() ==> (if rb.0@[k] >= c.js {
                rb.0@[k] as int
            } else {
                c.js
            }) == #[trigger] c.lo[k] && rb.1@[k] == c.hi[k]
    }
}

/// Compute banding information for the DP. Returns `None` if the pattern
/// cannot possibly match (a pattern character has no occurrence).
pub fn compute_banding(pat: &[char], cho: &[char], respect_case: bool, typos: bool) -> (r: Option<BandingInfo>)
    requires
        1 <= pat@.len() <= TYPO_MAX_PAT_LEN,
    ensures
        match r {
            Some(b) => spec_banding(pat@, cho@, respect_case, typos) matches Some(c) && banding_matches(b, c),
            None => spec_banding(pat@, cho@, respect_case, typos) is None,
        },
{
    let n = pat.len();
    let m = cho.len();
    if !typos {
        let fm = match compute_first_match_cols(pat, cho, respect_case) {
            Some(v) => v,
            None => return None,
        };
        let lm = match compute_last_match_cols(pat, cho, respect_case) {
            Some(v) => v,
            None => return None,
        };
        proof {
            lemma_first_cols_shape(pat@, cho@, respect_case, n as int);
            lemma_last_cols_shape(pat@, cho@, respect_case, 0);
            let fv = fm@.map_values(|x: usize| x as int);
            let lv = lm@.map_values(|x: usize| x as int);
            assert(fv.len() == n);
            assert forall|k: int| 0 <= k < n implies 1 <= #[trigger] fm@[k] <= m by {
                assert(fv[k] == fm@[k] as int);
            }
            assert forall|k: int| 0 <= k < n implies 1 <= #[trigger] lm@[k] <= m by {
                assert(lv[k] == lm@[k] as int);
            }
        }
        let j_first = fm[0];
        let bounds = compute_row_col_bounds(n, m, &fm, &lm);
        let ghost c = spec_banding(pat@, cho@, respect_case, typos)->Some_0;
        let b = BandingInfo { row_bounds: Some(bounds), j_first, bandwidth: 0, min_true_matches: 0 };
        proof {
            assert(banding_matches(b, c));
        }
        Some(b)
    } else {
        let j_first = match find_first_char(pat, cho, respect_case) {
            Some(j) => j,
            None => return None,
        };
        Some(
            BandingInfo {
                row_bounds: None,
                j_first,
                bandwidth: n + TYPO_BAND_SLACK,
                min_true_matches: (n + 1) / 2,
            },
        )
    }
}

impl BandingInfo {
    /// Inclusive column band of row `i` (1-indexed), never starting before
    /// the first match column.
    pub fn row_range(&self, i: usize, n: usize, m: usize, Ghost(c): Ghost<DpCtx>) -> (r: (usize, usize))
        requires
            banding_matches(*self, c),
            dp_wf(c),
            n == c.pat.len(),
            m == c.cho.len(),
            1 <= i <= n,
        ensures
            r.0 == c.lo[i - 1],
            r.1 == c.hi[i - 1],
    {
        let (lo, hi) = match &self.row_bounds {
            Some(rb) => (rb.0[i - 1], rb.1[i - 1]),
            None => typo_vband_row(i, m, self.bandwidth, self.j_first),
        };
        let lo = if lo >= self.j_first { lo } else { self.j_first };
        proof {
            if c.typos {
                assert(full_width_bands(c));
                let k = i - 1;
                assert(c.lo[k] == c.js && c.hi[k] == c.cho.len());
            }
        }
        (lo, hi)
    }
}

/// Row `i` of the DP computed from row `i - 1`. Both rows are stored for the
/// columns `js..=m`, column `j` at index `j - js`. Also reports whether the
/// row holds a positive cell.
fn dp_row(
    Ghost(c): Ghost<DpCtx>,
    cho: &[char],
    pat: &[char],
    bonuses: &[Score],
    rc: bool,
    typos: bool,
    i: usize,
    lo: usize,
    hi: usize,
    js: usize,
    prev: &Vec<Cell>,
) -> (r: (Vec<Cell>, bool))
    requires
        dp_wf(c),
        c.rc == rc,
        c.typos == typos,
        c.cho == cho@,
        c.pat == pat@,
        pat@.len() <= TYPO_MAX_PAT_LEN,
        bonuses@.len() == cho@.len(),
        forall|k: int| 0 <= k < cho@.len() ==> #[trigger] bonuses@[k] == spec_bonus(cho@, k),
        1 <= i <= pat@.len(),
        lo == c.lo[i - 1],
        hi == c.hi[i - 1],
        js == c.js,
        prev@.len() == cho@.len() - js + 1,
        forall|k: int| 0 <= k < prev@.len() ==> cell_is(#[trigger] prev@[k], dp_cell(c, i - 1, js + k)),
    ensures
        r.0@.len() == prev@.len(),
        forall|k: int| 0 <= k < r.0@.len() ==> cell_is(#[trigger] r.0@[k], dp_cell(c, i as int, js + k)),
        r.1 == row_positive(c, i as int),
{
    let w = prev.len();
    let m = cho.len();
    let pi = pat[i - 1];
    let mut cur: Vec<Cell> = Vec::new();
    let mut positive = false;
    let mut k: usize = 0;
    while k < w
        invariant
            dp_wf(c),
            c.rc == rc,
            c.typos == typos,
            c.cho == cho@,
            c.pat == pat@,
            pat@.len() <= TYPO_MAX_PAT_LEN,
            bonuses@.len() == cho@.len(),
            forall|q: int| 0 <= q < cho@.len() ==> #[trigger] bonuses@[q] == spec_bonus(cho@, q),
            1 <= i <= pat@.len(),
            pi == pat@[i - 1],
            lo == c.lo[i - 1],
            hi == c.hi[i - 1],
            js == c.js,
            w == prev@.len(),
            m == cho@.len(),
            w == m - js + 1,
            forall|q: int| 0 <= q < w ==> cell_is(#[trigger] prev@[q], dp_cell(c, i - 1, js + q)),
            k <= w,
            cur@.len() == k,
            forall|q: int| 0 <= q < k ==> cell_is(#[trigger] cur@[q], dp_cell(c, i as int, js + q)),
            positive == exists|q: int| js <= q < js + k && (#[trigger] dp_cell(c, i as int, q)).0 > 0,
        decreases w - k,
    {
        let j = js + k;
        if j < lo || j > hi {
            cur.push(cell_zero());
            proof {
                assert(dp_cell(c, i as int, j as int) == (0int, Dir::NoPath));
            }
        } else {
            let cj = cho[j - 1];
            let is_match = atom_eq(pi, cj, rc);
            let d = if k == 0 { cell_zero() } else { prev[k - 1] };
            let u = prev[k];
            let l = if k == 0 { cell_zero() } else { cur[k - 1] };
            proof {
                lemma_cell_bounds(c, i - 1, j - 1);
                lemma_cell_bounds(c, i - 1, j as int);
                lemma_cell_bounds(c, i as int, j - 1);
                lemma_cell_bounds(c, i as int, j as int);
                lemma_bonus_bounds(cho@, j - 1);
                if k == 0 {
                    assert(dp_cell(c, i - 1, j - 1) == (0int, Dir::NoPath));
                    assert(dp_cell(c, i as int, j - 1) == (0int, Dir::NoPath));
                } else {
                    assert(cell_is(prev@[k - 1], dp_cell(c, i - 1, js + (k - 1))));
                    assert(cell_is(cur@[k - 1], dp_cell(c, i as int, js + (k - 1))));
                }
                assert(cell_is(prev@[k as int], dp_cell(c, i - 1, js + k)));
            }
            let (best, dir) = compute_cell(
                typos,
                is_match,
                i == 1,
                bonuses[j - 1] as i32,
                d.score() as i32,
                d.is_diag(),
                d.has_path(),
                u.score() as i32,
                u.has_path(),
                l.score() as i32,
                l.is_diag(),
                l.has_path(),
            );
            proof {
                assert(dp_cell(c, i as int, j as int) == (best as int, dir));
            }
            cur.push(Cell::new(best as i16, dir));
            if best > 0 {
                positive = true;
            }
        }
        k += 1;
    }
    (cur, positive)
}

/// The score of the DP: the best last-row score, unless the search stopped
/// early or no last-row cell is positive.
pub open spec fn dp_score(c: DpCtx) -> Option<int> {
    if early_stop(c) || dp_best(c).0 <= 0 {
        None
    } else {
        Some(dp_best(c).0)
    }
}

/// The traceback from the best last-row cell.
pub open spec fn dp_traced(c: DpCtx) -> (Seq<usize>, int, int) {
    trace(c, c.pat.len() as int, dp_best(c).1)
}

/// Score and matched positions, `None` also when the traceback has fewer
/// true matches than required.
pub open spec fn dp_indices(c: DpCtx) -> Option<(int, Seq<usize>)> {
    match dp_score(c) {
        Some(s) => if dp_traced(c).1 < min_true_matches(c) {
            None
        } else {
            Some((s, dp_traced(c).0))
        },
        None => None,
    }
}

/// Score with the 0-indexed columns where the traceback stops and where it
/// starts.
pub open spec fn dp_range(c: DpCtx) -> Option<(int, int, int)> {
    match dp_score(c) {
        Some(s) => if dp_traced(c).1 < min_true_matches(c) {
            None
        } else {
            Some((s, dp_traced(c).2, dp_best(c).1 - 1))
        },
        None => None,
    }
}

/// What the DP drivers are given: the context, the sequences it was made
/// from, the bonuses of every choice position and matching banding data.
pub open spec fn dp_inputs(
    c: DpCtx,
    cho: Seq<char>,
    pat: Seq<char>,
    bonuses: Seq<Score>,
    rc: bool,
    typos: bool,
    b: BandingInfo,
) -> bool {
    &&& dp_wf(c)
    &&& c.cho == cho
    &&& c.pat == pat
    &&& c.rc == rc
    &&& c.typos == typos
    &&& 1 <= pat.len() <= TYPO_MAX_PAT_LEN
    &&& bonuses.len() == cho.len()
    &&& forall|k: int| 0 <= k < cho.len() ==> #[trigger] bonuses[k] == spec_bonus(cho, k)
    &&& banding_matches(b, c)
}

proof fn lemma_best_upto(c: DpCtx, j: int)
    requires
        dp_wf(c),
    ensures
        best_upto(c, j).0 >= 0,
        best_upto(c, j).0 > 0 ==> c.js <= best_upto(c, j).1 <= j && dp_cell(
            c,
            c.pat.len() as int,
            best_upto(c, j).1,
        ).0 == best_upto(c, j).0,
    decreases j,
{
    if j >= c.js && j >= 1 {
        lemma_best_upto(c, j - 1);
    }
}

fn zero_row(w: usize) -> (r: Vec<Cell>)
    ensures
        r@.len() == w,
        forall|k: int| 0 <= k < w ==> #[trigger] r@[k] == spec_cell_zero(),
{
    let mut r: Vec<Cell> = Vec::new();
    let mut k: usize = 0;
    while k < w
        invariant
            k <= w,
            r@.len() == k,
            forall|q: int| 0 <= q < k ==> #[trigger] r@[q] == spec_cell_zero(),
        decreases w - k,
    {
        r.push(cell_zero());
        k += 1;
    }
    r
}

/// Best score of the last row and the first column reaching it.
fn row_best(Ghost(c): Ghost<DpCtx>, row: &Vec<Cell>, js: usize) -> (r: (Score, usize))
    requires
        dp_wf(c),
        c.cho.len() <= usize::MAX,
        js == c.js,
        row@.len() == c.cho.len() - js + 1,
        forall|k: int| 0 <= k < row@.len() ==> cell_is(#[trigger] row@[k], dp_cell(c, c.pat.len() as int, js + k)),
    ensures
        r.0 as int == dp_best(c).0,
        r.1 as int == dp_best(c).1,
{
    let mut best: Score = 0;
    let mut best_j: usize = 0;
    let mut k: usize = 0;
    while k < row.len()
        invariant
            dp_wf(c),
            c.cho.len() <= usize::MAX,
            js == c.js,
            row@.len() == c.cho.len() - js + 1,
            forall|q: int| 0 <= q < row@.len() ==> cell_is(#[trigger] row@[q], dp_cell(c, c.pat.len() as int, js + q)),
            k <= row@.len(),
            (best as int, best_j as int) == best_upto(c, js + k - 1),
        decreases row@.len() - k,
    {
        assert(cell_is(row@[k as int], dp_cell(c, c.pat.len() as int, js + k)));
        let s = row[k].score();
        if s > best {
            best = s;
            best_j = js + k;
        }
        k += 1;
    }
    (best, best_j)
}

/// Score-only DP with two rolling rows (no traceback).
fn score_only_dp(
    Ghost(c): Ghost<DpCtx>,
    cho: &[char],
    pat: &[char],
    bonuses: &[Score],
    rc: bool,
    typos: bool,
    b: &BandingInfo,
) -> (r: Option<Score>)
    requires
        dp_inputs(c, cho@, pat@, bonuses@, rc, typos, *b),
    ensures
        match r {
            Some(s) => dp_score(c) == Some(s as int),
            None => dp_score(c) is None,
        },
{
    let n = pat.len();
    let m = cho.len();
    let js = b.j_first;
    let w = m - js + 1;
    let mut prev = zero_row(w);
    proof {
        lemma_cell_zero();
    }
    let mut dead: u32 = 0;
    let mut i: usize = 1;
    while i <= n
        invariant
            dp_inputs(c, cho@, pat@, bonuses@, rc, typos, *b),
            n == pat@.len(),
            m == cho@.len(),
            js == c.js,
            w == m - js + 1,
            1 <= i <= n + 1,
            prev@.len() == w,
            forall|k: int| 0 <= k < w ==> cell_is(#[trigger] prev@[k], dp_cell(c, i - 1, js + k)),
            dead <= 1,
            i == 1 ==> dead == 0,
            i > 1 ==> ((dead == 1) == !row_positive(c, i - 1)),
            forall|k: int| 1 <= k < i - 1 ==> #[trigger] row_positive(c, k) || row_positive(c, k + 1),
        decreases n + 1 - i,
    {
        let (lo, hi) = b.row_range(i, n, m, Ghost(c));
        let (cur, positive) = dp_row(Ghost(c), cho, pat, bonuses, rc, typos, i, lo, hi, js, &prev);
        if positive {
            dead = 0;
        } else {
            dead += 1;
            if dead >= 2 {
                proof {
                    assert(!row_positive(c, i - 1) && !row_positive(c, i as int));
                    assert(early_stop(c));
                }
                return None;
            }
        }
        prev = cur;
        i += 1;
    }
    proof {
        assert(!early_stop(c));
    }
    let (best, _best_j) = row_best(Ghost(c), &prev, js);
    proof {
        lemma_best_upto(c, c.cho.len() as int);
    }
    if best > 0 {
        Some(best)
    } else {
        None
    }
}

/// All rows `0..=n` of the DP, `None` when the search stops early.
fn fill_matrix(
    Ghost(c): Ghost<DpCtx>,
    cho: &[char],
    pat: &[char],
    bonuses: &[Score],
    rc: bool,
    typos: bool,
    b: &BandingInfo,
) -> (r: Option<Vec<Vec<Cell>>>)
    requires
        dp_inputs(c, cho@, pat@, bonuses@, rc, typos, *b),
    ensures
        match r {
            Some(rows) => {
                &&& !early_stop(c)
                &&& rows@.len() == pat@.len() + 1
                &&& forall|i: int| 0 <= i < rows@.len() ==> #[trigger] rows@[i]@.len() == cho@.len() - c.js + 1
                &&& forall|i: int, k: int|
                    0 <= i < rows@.len() && 0 <= k < rows@[i]@.len() ==> cell_is(
                        #[trigger] rows@[i]@[k],
                        dp_cell(c, i, c.js + k),
                    )
            },
            None => early_stop(c),
        },
{
    let n = pat.len();
    let m = cho.len();
    let js = b.j_first;
    let w = m - js + 1;
    let mut rows: Vec<Vec<Cell>> = Vec::new();
    rows.push(zero_row(w));
    proof {
        lemma_cell_zero();
        assert forall|q: int, k: int|
            0 <= q < rows@.len() && 0 <= k < rows@[q]@.len() implies cell_is(
            #[trigger] rows@[q]@[k],
            dp_cell(c, q, js + k),
        ) by {
            assert(q == 0);
            assert(rows@[0]@[k] == spec_cell_zero());
        }
    }
    let mut dead: u32 = 0;
    let mut i: usize = 1;
    while i <= n
        invariant
            dp_inputs(c, cho@, pat@, bonuses@, rc, typos, *b),
            n == pat@.len(),
            m == cho@.len(),
            js == c.js,
            w == m - js + 1,
            1 <= i <= n + 1,
            rows@.len() == i,
            forall|q: int| 0 <= q < rows@.len() ==> #[trigger] rows@[q]@.len() == w,
            forall|q: int, k: int|
                0 <= q < rows@.len() && 0 <= k < rows@[q]@.len() ==> cell_is(#[trigger] rows@[q]@[k], dp_cell(c, q, js + k)),
            dead <= 1,
            i == 1 ==> dead == 0,
            i > 1 ==> ((dead == 1) == !row_positive(c, i - 1)),
            forall|k: int| 1 <= k < i - 1 ==> #[trigger] row_positive(c, k) || row_positive(c, k + 1),
        decreases n + 1 - i,
    {
        let (lo, hi) = b.row_range(i, n, m, Ghost(c));
        let (cur, positive) = dp_row(Ghost(c), cho, pat, bonuses, rc, typos, i, lo, hi, js, &rows[i - 1]);
        if positive {
            dead = 0;
        } else {
            dead += 1;
            if dead >= 2 {
                proof {
                    assert(!row_positive(c, i - 1) && !row_positive(c, i as int));
                    assert(early_stop(c));
                }
                return None;
            }
        }
        rows.push(cur);
        i += 1;
    }
    proof {
        assert(!early_stop(c));
    }
    Some(rows)
}

pub open spec fn reversed(s: Seq<usize>) -> Seq<usize> {
    Seq::new(s.len(), |k: int| s[s.len() - 1 - k])
}

/// Walk the directions back from `(n, best_j)`: the matched positions
/// (ascending; only gathered when `collect`), the number of true matches and
/// the column where the walk stops.
fn trace_walk(
    Ghost(c): Ghost<DpCtx>,
    rows: &Vec<Vec<Cell>>,
    cho: &[char],
    pat: &[char],
    rc: bool,
    js: usize,
    best_j: usize,
    collect: bool,
) -> (r: (Vec<usize>, usize, usize))
    requires
        dp_wf(c),
        c.cho == cho@,
        c.pat == pat@,
        c.rc == rc,
        js == c.js,
        1 <= best_j <= cho@.len(),
        rows@.len() == pat@.len() + 1,
        forall|i: int| 0 <= i < rows@.len() ==> #[trigger] rows@[i]@.len() == cho@.len() - c.js + 1,
        forall|i: int, k: int|
            0 <= i < rows@.len() && 0 <= k < rows@[i]@.len() ==> cell_is(#[trigger] rows@[i]@[k], dp_cell(c, i, c.js + k)),
    ensures
        collect ==> r.0@ == trace(c, pat@.len() as int, best_j as int).0,
        r.1 as int == trace(c, pat@.len() as int, best_j as int).1,
        r.2 as int == trace(c, pat@.len() as int, best_j as int).2,
{
    let n = pat.len();
    let ghost whole = trace(c, n as int, best_j as int);
    let mut rev: Vec<usize> = Vec::new();
    let mut i: usize = n;
    let mut j: usize = best_j;
    let mut t: usize = 0;
    let mut stop = false;
    while i > 0 && j >= js && !stop
        invariant
            dp_wf(c),
            c.cho == cho@,
            c.pat == pat@,
            c.rc == rc,
            js == c.js,
            n == pat@.len(),
            rows@.len() == n + 1,
            forall|q: int| 0 <= q < rows@.len() ==> #[trigger] rows@[q]@.len() == cho@.len() - c.js + 1,
            forall|q: int, k: int|
                0 <= q < rows@.len() && 0 <= k < rows@[q]@.len() ==> cell_is(#[trigger] rows@[q]@[k], dp_cell(c, q, c.js + k)),
            i <= n,
            j <= cho@.len(),
            t <= n - i,
            whole == trace(c, n as int, best_j as int),
            stop ==> trace(c, i as int, j as int) == (Seq::<usize>::empty(), 0int, j as int),
            collect ==> whole.0 == trace(c, i as int, j as int).0 + reversed(rev@),
            whole.1 == trace(c, i as int, j as int).1 + t,
            whole.2 == trace(c, i as int, j as int).2,
        decreases i + j + if stop { 0int } else { 1int },
    {
        let cell = rows[i][j - js];
        assert(cell_is(rows@[i as int]@[j - js], dp_cell(c, i as int, c.js + (j - js))));
        match cell.dir() {
            Dir::Diag => {
                let ghost sub = trace(c, i - 1, j - 1);
                if atom_eq(pat[i - 1], cho[j - 1], rc) {
                    if collect {
                        let ghost old_rev = rev@;
                        rev.push(j - 1);
                        proof {
                            assert(reversed(rev@) =~= seq![(j - 1) as usize] + reversed(old_rev));
                            assert(sub.0.push((j - 1) as usize) + reversed(old_rev) =~= sub.0 + reversed(rev@));
                        }
                    }
                    t += 1;
                }
                i -= 1;
                j -= 1;
            },
            Dir::Up => {
                i -= 1;
            },
            Dir::Left => {
                j -= 1;
            },
            Dir::NoPath => {
                stop = true;
            },
        }
    }
    proof {
        assert(trace(c, i as int, j as int) == (Seq::<usize>::empty(), 0int, j as int));
    }
    let mut out: Vec<usize> = Vec::new();
    if collect {
        let len = rev.len();
        let mut q: usize = 0;
        while q < len
            invariant
                len == rev@.len(),
                q <= len,
                out@.len() == q,
                forall|a: int| 0 <= a < q ==> #[trigger] out@[a] == rev@[len - 1 - a],
            decreases len - q,
        {
            out.push(rev[len - 1 - q]);
            q += 1;
        }
        proof {
            assert(out@ =~= reversed(rev@));
            assert(whole.0 =~= Seq::<usize>::empty() + reversed(rev@));
        }
    }
    (out, t, j)
}

/// Full DP with traceback: the best score and the matched positions.
fn full_dp(
    Ghost(c): Ghost<DpCtx>,
    cho: &[char],
    pat: &[char],
    bonuses: &[Score],
    rc: bool,
    typos: bool,
    b: &BandingInfo,
) -> (r: Option<(Score, MatchIndices)>)
    requires
        dp_inputs(c, cho@, pat@, bonuses@, rc, typos, *b),
    ensures
        match r {
            Some((s, v)) => dp_indices(c) == Some((s as int, v@)),
            None => dp_indices(c) is None,
        },
{
    let n = pat.len();
    let m = cho.len();
    let js = b.j_first;
    let rows = match fill_matrix(Ghost(c), cho, pat, bonuses, rc, typos, b) {
        Some(rows) => rows,
        None => return None,
    };
    assert(c.cho.len() == m);
    let (best, best_j) = row_best(Ghost(c), &rows[n], js);
    proof {
        lemma_best_upto(c, c.cho.len() as int);
    }
    if best <= 0 {
        return None;
    }
    let (indices, true_matches, _stop_j) = trace_walk(Ghost(c), &rows, cho, pat, rc, js, best_j, true);
    if true_matches < b.min_true_matches {
        return None;
    }
    Some((best, indices))
}

/// Full DP with a traceback that only records where it stops: the best score,
/// the stopping column (0-indexed begin) and the best column (0-indexed end).
fn range_dp(
    Ghost(c): Ghost<DpCtx>,
    cho: &[char],
    pat: &[char],
    bonuses: &[Score],
    rc: bool,
    typos: bool,
    b: &BandingInfo,
) -> (r: Option<(Score, usize, usize)>)
    requires
        dp_inputs(c, cho@, pat@, bonuses@, rc, typos, *b),
    ensures
        match r {
            Some((s, bg, e)) => dp_range(c) == Some((s as int, bg as int, e as int)),
            None => dp_range(c) is None,
        },
{
    let n = pat.len();
    let m = cho.len();
    let js = b.j_first;
    let rows = match fill_matrix(Ghost(c), cho, pat, bonuses, rc, typos, b) {
        Some(rows) => rows,
        None => return None,
    };
    assert(c.cho.len() == m);
    let (best, best_j) = row_best(Ghost(c), &rows[n], js);
    proof {
        lemma_best_upto(c, c.cho.len() as int);
    }
    if best <= 0 {
        return None;
    }
    let end_0 = best_j - 1;
    let (_none, true_matches, begin_0) = trace_walk(Ghost(c), &rows, cho, pat, rc, js, best_j, false);
    if true_matches < b.min_true_matches {
        return None;
    }
    Some((best, begin_0, end_0))
}

// ---------------------------------------------------------------------------
// Properties of the traceback
// ---------------------------------------------------------------------------

proof fn lemma_trace_count(c: DpCtx, i: int, j: int)
    ensures
        trace(c, i, j).1 >= 0,
    decreases i + j,
{
    if i > 0 && j >= c.js && j >= 1 {
        let d = dp_cell(c, i, j).1;
        if d == Dir::Diag {
            lemma_trace_count(c, i - 1, j - 1);
        } else if d == Dir::Up {
            lemma_trace_count(c, i - 1, j);
        } else if d == Dir::Left {
            lemma_trace_count(c, i, j - 1);
        }
    }
}

/// Without typos, a traceback from a cell with a direction gathers at least
/// one position, and it stops at the column of the first one.
proof fn lemma_trace_begin(c: DpCtx, i: int, j: int)
    requires
        dp_wf(c),
        !c.typos,
        c.cho.len() <= usize::MAX,
        1 <= i <= c.pat.len(),
        c.js <= j,
        dp_cell(c, i, j).1 != Dir::NoPath,
    ensures
        trace(c, i, j).0.len() > 0,
        trace(c, i, j).0[0] as int == trace(c, i, j).2,
    decreases i + j,
{
    lemma_cell_bounds(c, i, j);
    lemma_cell_bounds(c, i - 1, j - 1);
    lemma_cell_bounds(c, i - 1, j);
    lemma_cell_bounds(c, i, j - 1);
    let d = dp_cell(c, i, j).1;
    if d == Dir::Diag {
        let sub = trace(c, i - 1, j - 1);
        if i - 1 >= 1 && dp_cell(c, i - 1, j - 1).1 != Dir::NoPath {
            lemma_trace_begin(c, i - 1, j - 1);
        } else {
            assert(sub == (Seq::<usize>::empty(), 0int, j - 1));
        }
    } else if d == Dir::Up {
        lemma_trace_begin(c, i - 1, j);
    } else if d == Dir::Left {
        lemma_trace_begin(c, i, j - 1);
    }
}

/// Without typos, the traceback from a cell of row `i` that has a direction
/// gathers one position for each of the first `i` pattern characters, rising
/// strictly, all before the cell's column.
proof fn lemma_trace_complete(c: DpCtx, i: int, j: int)
    requires
        dp_wf(c),
        !c.typos,
        c.cho.len() <= usize::MAX,
        0 <= i <= c.pat.len(),
        i == 0 || dp_cell(c, i, j).1 != Dir::NoPath,
    ensures
        trace(c, i, j).0.len() == i,
        forall|p: int, q: int| 0 <= p < q < i ==> #[trigger] trace(c, i, j).0[p] < #[trigger] trace(c, i, j).0[q],
        forall|p: int| 0 <= p < i ==> (#[trigger] trace(c, i, j).0[p]) < j,
    decreases i + j,
{
    if i > 0 {
        lemma_cell_bounds(c, i, j);
        lemma_cell_bounds(c, i - 1, j - 1);
        lemma_cell_bounds(c, i, j - 1);
        let d = dp_cell(c, i, j).1;
        if d == Dir::Diag {
            lemma_trace_complete(c, i - 1, j - 1);
            let sub = trace(c, i - 1, j - 1).0;
            let t = trace(c, i, j).0;
            assert(t == sub.push((j - 1) as usize));
            assert forall|p: int, q: int| 0 <= p < q < i implies #[trigger] t[p] < #[trigger] t[q] by {
                if q == i - 1 {
                    assert(t[p] == sub[p]);
                } else {
                    assert(t[p] == sub[p] && t[q] == sub[q]);
                }
            }
            assert forall|p: int| 0 <= p < i implies (#[trigger] t[p]) < j by {
                if p < i - 1 {
                    assert(t[p] == sub[p]);
                }
            }
        } else {
            lemma_trace_complete(c, i, j - 1);
        }
    }
}

/// With typos every row's band runs from the first match column to the end
/// of the choice.
pub open spec fn full_width_bands(c: DpCtx) -> bool {
    forall|k: int| 0 <= k < c.pat.len() ==> #[trigger] c.lo[k] == c.js && c.hi[k] == c.cho.len()
}

proof fn lemma_typo_bands(pat: Seq<char>, cho: Seq<char>, rc: bool)
    requires
        pat.len() >= 1,
    ensures
        spec_banding(pat, cho, rc, true) matches Some(c) ==> full_width_bands(c),
{
    lemma_banding_wf(pat, cho, rc, true);
}

/// Going down a column of full-width bands loses at most 4 per row (below
/// the first row).
proof fn lemma_up_chain(c: DpCtx, i: int, k: int, col: int)
    requires
        dp_wf(c),
        c.typos,
        1 <= i <= k <= c.pat.len(),
        c.js <= col <= c.cho.len(),
    ensures
        dp_cell(c, k, col).0 >= dp_cell(c, i, col).0 - 4 * (k - i),
    decreases k - i,
{
    if i < k {
        lemma_up_chain(c, i, k - 1, col);
        assert(c.lo[k - 1] == c.js && c.hi[k - 1] == c.cho.len());
        assert(c.lo[k - 2] == c.js && c.hi[k - 2] == c.cho.len());
        lemma_cell_bounds(c, k - 1, col);
        lemma_cell_bounds(c, k - 1, col - 1);
        lemma_cell_bounds(c, k, col - 1);
    }
}

/// From the first best cell of the last row, the traceback's last gathered
/// position is the best cell's column.
proof fn lemma_trace_end(c: DpCtx, i: int, bj: int)
    requires
        dp_wf(c),
        c.cho.len() <= usize::MAX,
        c.typos ==> full_width_bands(c),
        1 <= i <= c.pat.len(),
        c.js <= bj <= c.cho.len(),
        dp_cell(c, i, bj).0 > 0,
        dp_cell(c, c.pat.len() as int, bj).0 == dp_cell(c, i, bj).0 - 4 * (c.pat.len() - i),
        dp_cell(c, c.pat.len() as int, bj - 1).0 < dp_cell(c, c.pat.len() as int, bj).0,
        i < c.pat.len() ==> c.typos,
    ensures
        trace(c, i, bj).0.len() > 0,
        trace(c, i, bj).0.last() as int == bj - 1,
    decreases i,
{
    let n = c.pat.len() as int;
    lemma_cell_bounds(c, i, bj);
    lemma_cell_bounds(c, i - 1, bj - 1);
    lemma_cell_bounds(c, i - 1, bj);
    lemma_cell_bounds(c, i, bj - 1);
    let d = dp_cell(c, i, bj).1;
    if d == Dir::Diag {
        if !spec_atom_eq(c.pat[i - 1], c.cho[bj - 1], c.rc) {
            // a mismatch step needs a diagonal score above the penalty
            if bj - 1 >= c.js && i - 1 >= 1 {
                lemma_up_chain(c, i - 1, n, bj - 1);
            }
            assert(false);
        }
    } else if d == Dir::Up {
        lemma_trace_end(c, i - 1, bj);
    } else if d == Dir::Left {
        if i < n {
            lemma_up_chain(c, i, n, bj - 1);
        }
        assert(false);
    }
}

/// Scanning the last row, no column before the best one reaches its score.
proof fn lemma_best_upto_first(c: DpCtx, j: int, q: int)
    requires
        dp_wf(c),
        c.js <= q < best_upto(c, j).1,
        best_upto(c, j).0 > 0,
    ensures
        dp_cell(c, c.pat.len() as int, q).0 < best_upto(c, j).0,
    decreases j,
{
    if j >= c.js && j >= 1 {
        let prev = best_upto(c, j - 1);
        if dp_cell(c, c.pat.len() as int, j).0 > prev.0 {
            lemma_best_upto(c, j - 1);
            if q < j {
                if prev.0 > 0 && q < prev.1 {
                    lemma_best_upto_first(c, j - 1, q);
                } else {
                    lemma_best_upto_scan(c, j - 1, q);
                }
            }
        } else {
            lemma_best_upto_first(c, j - 1, q);
        }
    }
}

/// Every column scanned scores at most the best so far.
proof fn lemma_best_upto_scan(c: DpCtx, j: int, q: int)
    requires
        dp_wf(c),
        c.js <= q <= j,
    ensures
        dp_cell(c, c.pat.len() as int, q).0 <= best_upto(c, j).0,
    decreases j,
{
    if j >= c.js && j >= 1 && q < j {
        lemma_best_upto_scan(c, j - 1, q);
    }
}

/// The traceback of the DP gathers positions whose first is where it stops
/// and whose last is the best column.
proof fn lemma_dp_range_indices(c: DpCtx)
    requires
        dp_wf(c),
        c.cho.len() <= usize::MAX,
        c.typos ==> full_width_bands(c),
        c.pat.len() >= 1,
        dp_score(c) is Some,
    ensures
        dp_traced(c).0.len() > 0,
        !c.typos ==> dp_traced(c).0[0] as int == dp_traced(c).2,
        dp_traced(c).0.last() as int == dp_best(c).1 - 1,
{
    let n = c.pat.len() as int;
    let bj = dp_best(c).1;
    lemma_best_upto(c, c.cho.len() as int);
    lemma_cell_bounds(c, n, bj);
    if !c.typos {
        lemma_trace_begin(c, n, bj);
    }
    if bj - 1 >= c.js {
        lemma_best_upto_first(c, c.cho.len() as int, bj - 1);
    } else {
        assert(dp_cell(c, n, bj - 1) == (0int, Dir::NoPath));
    }
    lemma_trace_end(c, n, bj);
}

// ---------------------------------------------------------------------------
// SkimV3Matcher
// ---------------------------------------------------------------------------

/// SkimV3 fuzzy matcher: alignment with affine gap
/// penalties and context-sensitive bonuses.
#[derive(Debug, Clone, Copy)]
pub struct SkimV3Matcher {
    pub case: CaseMatching,
    pub allow_typos: bool,
}

impl Default for SkimV3Matcher {
    fn default() -> (r: Self)
        ensures
            r.case == CaseMatching::Smart,
            !r.allow_typos,
    {
        SkimV3Matcher { case: CaseMatching::Smart, allow_typos: false }
    }
}

/// Case is respected in `Respect` mode, and in `Smart` mode when the pattern
/// holds a character that is not an ASCII lowercase letter.
pub open spec fn v3_respect_case(case: CaseMatching, pat: Seq<char>) -> bool {
    case == CaseMatching::Respect || (case == CaseMatching::Smart && !(forall|k: int|
        0 <= k < pat.len() ==> spec_is_ascii_lower(#[trigger] pat[k])))
}

/// The DP context for a non-empty pattern and choice, `None` when the typo
/// prefilter rejects the pair, when the pattern is longer than
/// `TYPO_MAX_PAT_LEN`, or when banding finds no possible alignment.
pub open spec fn v3_prepared(typos: bool, case: CaseMatching, cho: Seq<char>, pat: Seq<char>) -> Option<DpCtx> {
    let rc = v3_respect_case(case, pat);
    if typos && !spec_cheap_typo_prefilter(pat, cho, rc) {
        None
    } else if pat.len() > TYPO_MAX_PAT_LEN {
        None
    } else {
        spec_banding(pat, cho, rc, typos)
    }
}

impl SkimV3Matcher {
    /// Score and matched positions of `pat` in `cho`: `(0, [])` for an empty
    /// pattern, `None` for an empty choice.
    pub open spec fn spec_indices(self, cho: Seq<char>, pat: Seq<char>) -> Option<(int, Seq<usize>)> {
        if pat.len() == 0 {
            Some((0, Seq::empty()))
        } else if cho.len() == 0 {
            None
        } else {
            match v3_prepared(self.allow_typos, self.case, cho, pat) {
                Some(c) => dp_indices(c),
                None => None,
            }
        }
    }

    /// The score without a traceback (no check of the true-match count).
    pub open spec fn spec_score_only(self, cho: Seq<char>, pat: Seq<char>) -> Option<int> {
        if pat.len() == 0 {
            Some(0)
        } else if cho.len() == 0 {
            None
        } else {
            match v3_prepared(self.allow_typos, self.case, cho, pat) {
                Some(c) => dp_score(c),
                None => None,
            }
        }
    }

    /// Score with the begin and end columns of the alignment.
    pub open spec fn spec_range(self, cho: Seq<char>, pat: Seq<char>) -> Option<(int, int, int)> {
        if pat.len() == 0 {
            Some((0, 0, 0))
        } else if cho.len() == 0 {
            None
        } else {
            match v3_prepared(self.allow_typos, self.case, cho, pat) {
                Some(c) => dp_range(c),
                None => None,
            }
        }
    }

    /// Create a new `SkimV3Matcher` with the given settings.
    pub fn new(case: CaseMatching, allow_typos: bool) -> (r: Self)
        ensures
            r.case == case,
            r.allow_typos == allow_typos,
    {
        SkimV3Matcher { case, allow_typos }
    }

    fn respect_case(&self, pattern: &[char]) -> (r: bool)
        ensures
            r == v3_respect_case(self.case, pattern@),
    {
        if self.case == CaseMatching::Respect {
            return true;
        }
        if self.case != CaseMatching::Smart {
            return false;
        }
        let mut k: usize = 0;
        while k < pattern.len()
            invariant
                self.case == CaseMatching::Smart,
                k <= pattern@.len(),
                forall|q: int| 0 <= q < k ==> spec_is_ascii_lower(#[trigger] pattern@[q]),
            decreases pattern@.len() - k,
        {
            if !is_ascii_lower(pattern[k]) {
                return true;
            }
            k += 1;
        }
        false
    }

    /// Prefilter, bonuses and banding shared by every entry point: `None`
    /// when no alignment is possible, otherwise the data the DP runs on.
    fn prepare(&self, cho: &[char], pat: &[char]) -> (r: Option<(Vec<Score>, BandingInfo, bool)>)
        requires
            pat@.len() >= 1,
            cho@.len() >= 1,
        ensures
            match r {
                Some((bonuses, b, rc)) => v3_prepared(self.allow_typos, self.case, cho@, pat@) matches Some(c)
                    && rc == v3_respect_case(self.case, pat@) && dp_inputs(c, cho@, pat@, bonuses@, rc, self.allow_typos, b)
                    && cho@.len() <= usize::MAX,
                None => v3_prepared(self.allow_typos, self.case, cho@, pat@) is None,
            },
    {
        let _m = cho.len();
        let rc = self.respect_case(pat);
        if self.allow_typos && !cheap_typo_prefilter(pat, cho, rc) {
            return None;
        }
        if pat.len() > TYPO_MAX_PAT_LEN {
            return None;
        }
        let mut bonuses: Vec<Score> = Vec::new();
        precompute_bonuses(cho, &mut bonuses);
        match compute_banding(pat, cho, rc, self.allow_typos) {
            Some(b) => {
                proof {
                    lemma_banding_wf(pat@, cho@, rc, self.allow_typos);
                }
                Some((bonuses, b, rc))
            },
            None => None,
        }
    }

    /// Score and, when `compute_indices`, the matched positions; without
    /// indices only the score-only DP runs and the positions are left empty.
    fn run(&self, choice: &str, pattern: &str, compute_indices: bool) -> (r: Option<(ScoreType, MatchIndices)>)
        ensures
            compute_indices ==> match r {
                Some((s, v)) => self.spec_indices(choice@, pattern@) == Some((s as int, v@)),
                None => self.spec_indices(choice@, pattern@) is None,
            },
            !compute_indices ==> match r {
                Some((s, v)) => self.spec_score_only(choice@, pattern@) == Some(s as int) && v@.len() == 0,
                None => self.spec_score_only(choice@, pattern@) is None,
            },
    {
        let pat = str_to_chars(pattern);
        let cho = str_to_chars(choice);
        if pat.len() == 0 {
            return Some((0, Vec::new()));
        }
        if cho.len() == 0 {
            return None;
        }
        let (bonuses, b, rc) = match self.prepare(cho.as_slice(), pat.as_slice()) {
            Some(p) => p,
            None => return None,
        };
        let ghost c = v3_prepared(self.allow_typos, self.case, cho@, pat@)->Some_0;
        if compute_indices {
            match full_dp(Ghost(c), cho.as_slice(), pat.as_slice(), bonuses.as_slice(), rc, self.allow_typos, &b) {
                Some((s, v)) => Some((s as i64, v)),
                None => None,
            }
        } else {
            match score_only_dp(Ghost(c), cho.as_slice(), pat.as_slice(), bonuses.as_slice(), rc, self.allow_typos, &b) {
                Some(s) => Some((s as i64, Vec::new())),
                None => None,
            }
        }
    }

    /// Run the DP and return `(score, begin, end)` without collecting all indices.
    fn run_range(&self, choice: &str, pattern: &str) -> (r: Option<(ScoreType, usize, usize)>)
        ensures
            match r {
                Some((s, bg, e)) => self.spec_range(choice@, pattern@) == Some((s as int, bg as int, e as int)),
                None => self.spec_range(choice@, pattern@) is None,
            },
    {
        let pat = str_to_chars(pattern);
        let cho = str_to_chars(choice);
        if pat.len() == 0 {
            return Some((0, 0, 0));
        }
        if cho.len() == 0 {
            return None;
        }
        let (bonuses, b, rc) = match self.prepare(cho.as_slice(), pat.as_slice()) {
            Some(p) => p,
            None => return None,
        };
        let ghost c = v3_prepared(self.allow_typos, self.case, cho@, pat@)->Some_0;
        match range_dp(Ghost(c), cho.as_slice(), pat.as_slice(), bonuses.as_slice(), rc, self.allow_typos, &b) {
            Some((s, bg, e)) => Some((s as i64, bg, e)),
            None => None,
        }
    }
}

impl FuzzyMatcher for SkimV3Matcher {
    open spec fn spec_fuzzy_score(&self, choice: Seq<char>, pattern: Seq<char>) -> Option<i64> {
        match self.spec_indices(choice, pattern) {
            Some((s, _v)) => Some(s as i64),
            None => None,
        }
    }

    open spec fn spec_fuzzy_indices(&self, choice: Seq<char>, pattern: Seq<char>) -> Seq<usize> {
        match self.spec_indices(choice, pattern) {
            Some((_s, v)) => v,
            None => Seq::empty(),
        }
    }

    fn fuzzy_indices(&self, choice: &str, pattern: &str) -> (r: Option<(ScoreType, MatchIndices)>) {
        self.run(choice, pattern, true)
    }

    open spec fn spec_fuzzy_match(&self, choice: Seq<char>, pattern: Seq<char>) -> Option<i64> {
        match self.spec_score_only(choice, pattern) {
            Some(s) => Some(s as i64),
            None => None,
        }
    }

    fn fuzzy_match(&self, choice: &str, pattern: &str) -> (r: Option<ScoreType>)
        ensures
            match r {
                Some(s) => self.spec_score_only(choice@, pattern@) == Some(s as int),
                None => self.spec_score_only(choice@, pattern@) is None,
            },
    {
        match self.run(choice, pattern, false) {
            Some((s, _)) => Some(s),
            None => None,
        }
    }

    fn fuzzy_match_range(&self, choice: &str, pattern: &str) -> (r: Option<(ScoreType, usize, usize)>)
        ensures
            match r {
                Some((s, bg, e)) => self.spec_range(choice@, pattern@) == Some((s as int, bg as int, e as int)),
                None => self.spec_range(choice@, pattern@) is None,
            },
    {
        self.run_range(choice, pattern)
    }
}

/// `fuzzy_match_range` agrees with `fuzzy_indices`: both match or neither
/// does, with the same score, and the range ends at the last matched
/// position. Without typos it begins at the first matched position; with
/// typos it begins where the alignment begins, which may be a substituted
/// position before the first match.
pub proof fn lemma_range_agrees_with_indices(m: SkimV3Matcher, cho: Seq<char>, pat: Seq<char>)
    requires
        cho.len() <= usize::MAX,
    ensures
        match (m.spec_range(cho, pat), m.spec_indices(cho, pat)) {
            (Some((s, b, e)), Some((s2, v))) => s == s2 && (!m.allow_typos ==> b == first_or_zero(v) as int) && e
                == last_or_zero(v) as int,
            (None, None) => true,
            _ => false,
        },
{
    if pat.len() > 0 && cho.len() > 0 {
        let rc = v3_respect_case(m.case, pat);
        lemma_banding_wf(pat, cho, rc, m.allow_typos);
        lemma_typo_bands(pat, cho, rc);
        if let Some(c) = v3_prepared(m.allow_typos, m.case, cho, pat) {
            if dp_score(c) is Some && dp_traced(c).1 >= min_true_matches(c) {
                lemma_dp_range_indices(c);
            }
        }
    }
}

/// Without typos the alignment consumes the whole pattern: a match answers
/// one position for each pattern character, in increasing order.
pub proof fn lemma_exact_indices_complete(m: SkimV3Matcher, cho: Seq<char>, pat: Seq<char>)
    requires
        !m.allow_typos,
        cho.len() <= usize::MAX,
    ensures
        m.spec_indices(cho, pat) matches Some((_s, v)) ==> v.len() == pat.len() && forall|p: int, q: int|
            0 <= p < q < v.len() ==> #[trigger] v[p] < #[trigger] v[q],
{
    if pat.len() > 0 && cho.len() > 0 {
        let rc = v3_respect_case(m.case, pat);
        lemma_banding_wf(pat, cho, rc, false);
        if let Some(c) = v3_prepared(m.allow_typos, m.case, cho, pat) {
            if dp_score(c) is Some {
                let n = c.pat.len() as int;
                let bj = dp_best(c).1;
                lemma_best_upto(c, c.cho.len() as int);
                lemma_cell_bounds(c, n, bj);
                lemma_trace_complete(c, n, bj);
            }
        }
    }
}

/// The score-only search agrees with the full one whenever the full one
/// matches, and without typos (no true-match threshold) they always agree.
pub proof fn lemma_score_only_agrees(m: SkimV3Matcher, cho: Seq<char>, pat: Seq<char>)
    ensures
        m.spec_indices(cho, pat) matches Some((s, _v)) ==> m.spec_score_only(cho, pat) == Some(s),
        !m.allow_typos ==> match m.spec_indices(cho, pat) {
            Some((s, _v)) => m.spec_score_only(cho, pat) == Some(s),
            None => m.spec_score_only(cho, pat) is None,
        },
{
    if pat.len() > 0 && cho.len() > 0 {
        if let Some(c) = v3_prepared(m.allow_typos, m.case, cho, pat) {
            lemma_trace_count(c, c.pat.len() as int, dp_best(c).1);
        }
    }
}

} // verus!
