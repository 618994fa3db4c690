//! Fuzzy matching algorithm based on fzy by John Hawthorn.
//!
//! Fuzzy matching is scored as a modified edit-distance problem solved by
//! dynamic programming, with two tables:
//! - `M[i][j]`: the best score using the first `i + 1` needle characters and
//!   the first `j + 1` haystack characters;
//! - `D[i][j]`: the best such score that *ends with a match* at `(i, j)`.
//!
//! All scoring uses integer arithmetic with a ×200 scaling factor.
use vstd::prelude::*;

use crate::fuzzy_matcher::util::{char_equal, cheap_matches, is_embedding, is_subsequence, spec_char_equal};
use crate::fuzzy_matcher::{FuzzyMatcher, IndexType, MatchIndices, ScoreType};
use crate::text::{
    ascii_lower, char_is_uppercase, spec_ascii_lower, str_to_chars, unicode_is_uppercase,
};

verus! {

// ---------------------------------------------------------------------------
// Score constants (scaled ×200 to integer)
// ---------------------------------------------------------------------------

/// Sentinel for "impossible" / uninitialized DP cells (`i64::MIN / 2`).
pub const SCORE_MIN: i64 = -4611686018427387904;

/// Score for an exact-length match (`i64::MAX / 2`).
pub const SCORE_MAX: i64 = 4611686018427387903;

pub const SCORE_GAP_LEADING: i64 = -1;

pub const SCORE_GAP_TRAILING: i64 = -1;

pub const SCORE_GAP_INNER: i64 = -2;

pub const SCORE_MATCH_CONSECUTIVE: i64 = 200;

pub const SCORE_MATCH_SLASH: i64 = 180;

pub const SCORE_MATCH_WORD: i64 = 160;

pub const SCORE_MATCH_CAPITAL: i64 = 140;

pub const SCORE_MATCH_DOT: i64 = 120;

/// Penalty applied when a typo is used (substitution or needle-char deletion).
pub const SCORE_TYPO: i64 = -300;

/// Maximum haystack length that is scored.
pub const MATCH_MAX_LEN: usize = 1024;

/// Conversion factor from internal ×200 scores to the ×1000 convention.
pub const SCORE_TO_SKIM: i64 = 5;

/// Longest needle the typo-tolerant scorer accepts.
pub const TYPO_MAX_NEEDLE_LEN: usize = 268435456;

// ---------------------------------------------------------------------------
// Bonus computation
// ---------------------------------------------------------------------------

/// 2 for an ASCII capital, 1 for an ASCII lowercase letter or digit, 0 otherwise.
pub open spec fn spec_bonus_index(ch: char) -> int {
    if 'A' <= ch <= 'Z' {
        2
    } else if ('a' <= ch <= 'z') || ('0' <= ch <= '9') {
        1
    } else {
        0
    }
}

/// The bonus for matching `ch` when it follows `prev_ch`.
pub open spec fn spec_compute_bonus(prev_ch: char, ch: char) -> i64 {
    if spec_bonus_index(ch) == 0 {
        0
    } else if prev_ch == '/' {
        SCORE_MATCH_SLASH
    } else if prev_ch == '-' || prev_ch == '_' || prev_ch == ' ' {
        SCORE_MATCH_WORD
    } else if prev_ch == '.' {
        SCORE_MATCH_DOT
    } else if spec_bonus_index(ch) == 2 && 'a' <= prev_ch <= 'z' {
        SCORE_MATCH_CAPITAL
    } else {
        0
    }
}

/// The bonus for matching haystack character `j` (the start acts as if after `/`).
pub open spec fn spec_bonus_at(haystack: Seq<char>, j: int) -> i64 {
    spec_compute_bonus(if j == 0 { '/' } else { haystack[j - 1] }, haystack[j])
}

/// Only letters and digits earn a bonus, and a letter or digit earns the
/// bonus of the boundary it follows: the slash bonus after '/', the word
/// bonus after '-', '_' or ' ', the dot bonus after '.', the capital bonus
/// for an uppercase letter after a lowercase one, and none inside a run of
/// letters and digits otherwise. A path boundary weighs most, then a word
/// boundary, a camel-case hump and a dot.
pub proof fn lemma_bonus_boundaries(prev_ch: char, ch: char)
    ensures
        !(('a' <= ch <= 'z') || ('A' <= ch <= 'Z') || ('0' <= ch <= '9')) ==> spec_compute_bonus(prev_ch, ch) == 0,
        (('a' <= ch <= 'z') || ('A' <= ch <= 'Z') || ('0' <= ch <= '9')) && prev_ch == '/' ==> spec_compute_bonus(
            prev_ch,
            ch,
        ) == SCORE_MATCH_SLASH,
        (('a' <= ch <= 'z') || ('A' <= ch <= 'Z') || ('0' <= ch <= '9')) && (prev_ch == '-' || prev_ch == '_'
            || prev_ch == ' ') ==> spec_compute_bonus(prev_ch, ch) == SCORE_MATCH_WORD,
        (('a' <= ch <= 'z') || ('A' <= ch <= 'Z') || ('0' <= ch <= '9')) && prev_ch == '.' ==> spec_compute_bonus(
            prev_ch,
            ch,
        ) == SCORE_MATCH_DOT,
        ('A' <= ch <= 'Z') && ('a' <= prev_ch <= 'z') ==> spec_compute_bonus(prev_ch, ch) == SCORE_MATCH_CAPITAL,
        (('a' <= ch <= 'z') || ('0' <= ch <= '9')) && (('a' <= prev_ch <= 'z') || ('A' <= prev_ch <= 'Z') || (
        '0' <= prev_ch <= '9')) ==> spec_compute_bonus(prev_ch, ch) == 0,
        ('A' <= ch <= 'Z') && (('A' <= prev_ch <= 'Z') || ('0' <= prev_ch <= '9')) ==> spec_compute_bonus(
            prev_ch,
            ch,
        ) == 0,
        SCORE_MATCH_SLASH > SCORE_MATCH_WORD > SCORE_MATCH_CAPITAL > SCORE_MATCH_DOT > 0,
{
}

/// In a haystack, a letter or digit right after '-', '_' or ' ' earns the
/// word bonus, and the first character earns the slash bonus when it is a
/// letter or digit.
pub proof fn lemma_bonus_at_word_start(haystack: Seq<char>, j: int)
    requires
        0 <= j < haystack.len(),
        ('a' <= haystack[j] <= 'z') || ('A' <= haystack[j] <= 'Z') || ('0' <= haystack[j] <= '9'),
    ensures
        j == 0 ==> spec_bonus_at(haystack, j) == SCORE_MATCH_SLASH,
        j > 0 && (haystack[j - 1] == '-' || haystack[j - 1] == '_' || haystack[j - 1] == ' ') ==> spec_bonus_at(
            haystack,
            j,
        ) == SCORE_MATCH_WORD,
{
    if j > 0 {
        lemma_bonus_boundaries(haystack[j - 1], haystack[j]);
    } else {
        lemma_bonus_boundaries('/', haystack[j]);
    }
}

pub fn bonus_index(ch: char) -> (r: usize)
    ensures
        r == spec_bonus_index(ch),
{
    if 'A' <= ch && ch <= 'Z' {
        2
    } else if ('a' <= ch && ch <= 'z') || ('0' <= ch && ch <= '9') {
        1
    } else {
        0
    }
}

pub fn compute_bonus(prev_ch: char, ch: char) -> (r: i64)
    ensures
        r == spec_compute_bonus(prev_ch, ch),
        0 <= r <= SCORE_MATCH_SLASH,
{
    let idx = bonus_index(ch);
    if idx == 0 {
        0
    } else if prev_ch == '/' {
        SCORE_MATCH_SLASH
    } else if prev_ch == '-' || prev_ch == '_' || prev_ch == ' ' {
        SCORE_MATCH_WORD
    } else if prev_ch == '.' {
        SCORE_MATCH_DOT
    } else if idx == 2 && 'a' <= prev_ch && prev_ch <= 'z' {
        SCORE_MATCH_CAPITAL
    } else {
        0
    }
}

/// The match bonus of every haystack position.
pub fn precompute_bonus(haystack: &[char]) -> (r: Vec<i64>)
    ensures
        r@.len() == haystack@.len(),
        forall|j: int| 0 <= j < haystack@.len() ==> #[trigger] r@[j] == spec_bonus_at(haystack@, j),
{
    let mut bonuses: Vec<i64> = Vec::new();
    let mut prev = '/';
    let mut j: usize = 0;
    while j < haystack.len()
        invariant
            j <= haystack@.len(),
            bonuses@.len() == j,
            prev == (if j == 0 { '/' } else { haystack@[j - 1] }),
            forall|k: int| 0 <= k < j ==> #[trigger] bonuses@[k] == spec_bonus_at(haystack@, k),
        decreases haystack.len() - j,
    {
        let ch = haystack[j];
        bonuses.push(compute_bonus(prev, ch));
        prev = ch;
        j += 1;
    }
    bonuses
}

// ---------------------------------------------------------------------------
// The exact (typo-free) DP
// ---------------------------------------------------------------------------

/// Gap penalty in needle row `i`: trailing in the last row, inner otherwise.
pub open spec fn spec_gap(n: int, i: int) -> i64 {
    if i == n - 1 {
        SCORE_GAP_TRAILING
    } else {
        SCORE_GAP_INNER
    }
}

pub open spec fn spec_is_match(needle: Seq<char>, haystack: Seq<char>, cs: bool, i: int, j: int) -> bool {
    spec_char_equal(needle[i], haystack[j], cs)
}

/// `D[i][j]` of the exact DP.
pub open spec fn fzy_d(needle: Seq<char>, haystack: Seq<char>, cs: bool, i: int, j: int) -> int
    decreases i, j, 0int,
{
    if i < 0 || j < 0 || !spec_is_match(needle, haystack, cs, i, j) {
        SCORE_MIN as int
    } else if i == 0 {
        -j + spec_bonus_at(haystack, j)
    } else if j == 0 {
        SCORE_MIN as int
    } else {
        let a = fzy_m(needle, haystack, cs, i - 1, j - 1) + spec_bonus_at(haystack, j);
        let b = fzy_d(needle, haystack, cs, i - 1, j - 1) + SCORE_MATCH_CONSECUTIVE;
        if a >= b {
            a
        } else {
            b
        }
    }
}

/// `M[i][j]` of the exact DP: the best score so far, the larger of `D` and
/// the gap-extended value to its left.
pub open spec fn fzy_m(needle: Seq<char>, haystack: Seq<char>, cs: bool, i: int, j: int) -> int
    decreases i, j, 1int,
{
    if i < 0 || j < 0 {
        SCORE_MIN as int
    } else {
        let left = (if j == 0 { SCORE_MIN as int } else { fzy_m(needle, haystack, cs, i, j - 1) })
            + spec_gap(needle.len() as int, i);
        if spec_is_match(needle, haystack, cs, i, j) {
            let d = fzy_d(needle, haystack, cs, i, j);
            if d >= left {
                d
            } else {
                left
            }
        } else {
            left
        }
    }
}

pub open spec fn dp_lo(m: int) -> int {
    SCORE_MIN - 2 * m - 2
}

proof fn lemma_fzy_bounds(needle: Seq<char>, haystack: Seq<char>, cs: bool, i: int, j: int)
    requires
        0 <= i < needle.len(),
        0 <= j < haystack.len(),
    ensures
        dp_lo(j + 1) <= fzy_d(needle, haystack, cs, i, j) <= 200 * (i + 1),
        dp_lo(j + 1) <= fzy_m(needle, haystack, cs, i, j) <= 200 * (i + 1),
        fzy_m(needle, haystack, cs, i, j) >= SCORE_MIN - 2 * (j + 1),
    decreases i, j,
{
    if j > 0 {
        lemma_fzy_bounds(needle, haystack, cs, i, j - 1);
    }
    if i > 0 && j > 0 {
        lemma_fzy_bounds(needle, haystack, cs, i - 1, j - 1);
    }
    let d = fzy_d(needle, haystack, cs, i, j);
    assert(dp_lo(j + 1) <= d <= 200 * (i + 1));
    let left = (if j == 0 { SCORE_MIN as int } else { fzy_m(needle, haystack, cs, i, j - 1) })
        + spec_gap(needle.len() as int, i);
    assert(left >= SCORE_MIN - 2 * (j + 1));
    assert(left <= 200 * (i + 1));
}

/// Core fzy scoring without typos. `positions`, when given, receives the
/// matched haystack position of every needle character.
pub fn fzy_score(
    needle: &[char],
    haystack: &[char],
    case_sensitive: bool,
    positions: Option<&mut Vec<IndexType>>,
) -> (r: Option<i64>)
    ensures
        r == spec_fzy_score(needle@, haystack@, case_sensitive),
        match positions {
            Some(p) => r is Some ==> final(p)@.len() == needle@.len() && (forall|k: int|
                0 <= k < needle@.len() ==> #[trigger] final(p)@[k] < haystack@.len()) && final(p)@
                == spec_fzy_positions(needle@, haystack@, case_sensitive),
            None => true,
        },
{
    let n = needle.len();
    let m = haystack.len();
    if n == 0 || m > MATCH_MAX_LEN || n > m {
        return None;
    }
    if n == m {
        match positions {
            Some(pos) => {
                pos.clear();
                let mut k: usize = 0;
                while k < n
                    invariant
                        n == needle@.len(),
                        n == m,
                        m == haystack@.len(),
                        k <= n,
                        pos@.len() == k,
                        forall|q: int| 0 <= q < k ==> #[trigger] pos@[q] == q,
                    decreases n - k,
                {
                    pos.push(k);
                    k += 1;
                }
                assert(pos@ =~= Seq::new(n as nat, |q: int| q as usize));
            },
            None => {},
        }
        return Some(SCORE_MAX);
    }
    let match_bonus = precompute_bonus(haystack);
    match positions {
        Some(pos) => {
            let s = fzy_score_full(needle, haystack, case_sensitive, &match_bonus, pos);
            Some(s)
        },
        None => {
            let s = fzy_score_rolling(needle, haystack, case_sensitive, &match_bonus);
            Some(s)
        },
    }
}

/// What `fzy_score` answers: `None` for an empty needle, a haystack over
/// `MATCH_MAX_LEN`, or a needle longer than the haystack; `SCORE_MAX` for equal
/// lengths; otherwise `M[n-1][m-1]`, the best score, the same whether the
/// positions are recovered or not.
pub open spec fn spec_fzy_score(needle: Seq<char>, haystack: Seq<char>, cs: bool) -> Option<i64> {
    let n = needle.len();
    let m = haystack.len();
    if n == 0 || m > MATCH_MAX_LEN || n > m {
        None
    } else if n == m {
        Some(SCORE_MAX)
    } else {
        Some(fzy_m(needle, haystack, cs, n - 1, m - 1) as i64)
    }
}

/// The column where the backtrace takes needle character `i`: scanning down
/// from column `j`, the first match cell that is required (after a
/// consecutive match) or that gives the cell's best score; `None` when column
/// 0 is passed without one.
pub open spec fn fzy_trace_col(needle: Seq<char>, haystack: Seq<char>, cs: bool, i: int, j: int, mr: bool) -> Option<int>
    decreases j,
{
    if j < 0 {
        None
    } else {
        let dv = fzy_d(needle, haystack, cs, i, j);
        if dv != SCORE_MIN && (mr || dv == fzy_m(needle, haystack, cs, i, j)) {
            Some(j)
        } else if j == 0 {
            None
        } else {
            fzy_trace_col(needle, haystack, cs, i, j - 1, mr)
        }
    }
}

/// The positions after backtracking needle rows `ii - 1` down to 0, from
/// column `j`, with `mr` telling whether the next match is required.
pub open spec fn fzy_trace(needle: Seq<char>, haystack: Seq<char>, cs: bool, ii: int, j: int, mr: bool, pos: Seq<usize>) -> Seq<
    usize,
>
    decreases ii,
{
    if ii <= 0 {
        pos
    } else {
        let i = ii - 1;
        match fzy_trace_col(needle, haystack, cs, i, j, mr) {
            Some(c) => fzy_trace(
                needle,
                haystack,
                cs,
                i,
                if c > 0 {
                    c - 1
                } else {
                    0
                },
                i > 0 && c > 0 && fzy_m(needle, haystack, cs, i, c) == fzy_d(needle, haystack, cs, i - 1, c - 1)
                    + SCORE_MATCH_CONSECUTIVE,
                pos.update(i, c as usize),
            ),
            None => fzy_trace(needle, haystack, cs, i, 0, mr, pos),
        }
    }
}

/// The haystack position of each needle character that `fzy_score` reports:
/// each in turn when the lengths are equal, else the backtrace of the matrices
/// from the last cell.
pub open spec fn spec_fzy_positions(needle: Seq<char>, haystack: Seq<char>, cs: bool) -> Seq<usize> {
    if needle.len() == haystack.len() {
        Seq::new(needle.len(), |k: int| k as usize)
    } else {
        fzy_trace(
            needle,
            haystack,
            cs,
            needle.len() as int,
            haystack.len() - 1,
            false,
            Seq::new(needle.len(), |k: int| 0usize),
        )
    }
}

fn fzy_score_full(
    needle: &[char],
    haystack: &[char],
    case_sensitive: bool,
    match_bonus: &Vec<i64>,
    pos: &mut Vec<IndexType>,
) -> (r: i64)
    requires
        0 < needle@.len() < haystack@.len() <= MATCH_MAX_LEN,
        match_bonus@.len() == haystack@.len(),
        forall|j: int| 0 <= j < haystack@.len() ==> #[trigger] match_bonus@[j] == spec_bonus_at(haystack@, j),
    ensures
        r == fzy_m(needle@, haystack@, case_sensitive, needle@.len() - 1, haystack@.len() - 1),
        final(pos)@.len() == needle@.len(),
        forall|k: int| 0 <= k < needle@.len() ==> #[trigger] final(pos)@[k] < haystack@.len(),
        final(pos)@ == spec_fzy_positions(needle@, haystack@, case_sensitive),
{
    let n = needle.len();
    let m = haystack.len();
    let ghost nd = needle@;
    let ghost hs = haystack@;
    let mut d_rows: Vec<Vec<i64>> = Vec::new();
    let mut m_rows: Vec<Vec<i64>> = Vec::new();
    let mut i: usize = 0;
    while i < n
        invariant
            n == nd.len(),
            m == hs.len(),
            nd == needle@,
            hs == haystack@,
            0 < n < m <= MATCH_MAX_LEN,
            i <= n,
            match_bonus@.len() == m,
            forall|j: int| 0 <= j < m ==> #[trigger] match_bonus@[j] == spec_bonus_at(hs, j),
            d_rows@.len() == i,
            m_rows@.len() == i,
            forall|a: int| 0 <= a < i ==> (#[trigger] d_rows@[a])@.len() == m,
            forall|a: int| 0 <= a < i ==> (#[trigger] m_rows@[a])@.len() == m,
            forall|a: int, b: int|
                0 <= a < i && 0 <= b < m ==> #[trigger] d_rows@[a]@[b] == fzy_d(nd, hs, case_sensitive, a, b),
            forall|a: int, b: int|
                0 <= a < i && 0 <= b < m ==> #[trigger] m_rows@[a]@[b] == fzy_m(nd, hs, case_sensitive, a, b),
        decreases n - i,
    {
        let gap: i64 = if i == n - 1 { SCORE_GAP_TRAILING } else { SCORE_GAP_INNER };
        let mut d_cur: Vec<i64> = Vec::new();
        let mut m_cur: Vec<i64> = Vec::new();
        let mut prev_score: i64 = SCORE_MIN;
        let mut j: usize = 0;
        while j < m
            invariant
                n == nd.len(),
                m == hs.len(),
                nd == needle@,
                hs == haystack@,
                0 < n < m <= MATCH_MAX_LEN,
                i < n,
                gap == spec_gap(n as int, i as int),
                match_bonus@.len() == m,
                forall|q: int| 0 <= q < m ==> #[trigger] match_bonus@[q] == spec_bonus_at(hs, q),
                d_rows@.len() == i,
                m_rows@.len() == i,
                forall|a: int| 0 <= a < i ==> (#[trigger] d_rows@[a])@.len() == m,
                forall|a: int| 0 <= a < i ==> (#[trigger] m_rows@[a])@.len() == m,
                forall|a: int, b: int|
                    0 <= a < i && 0 <= b < m ==> #[trigger] d_rows@[a]@[b] == fzy_d(nd, hs, case_sensitive, a, b),
                forall|a: int, b: int|
                    0 <= a < i && 0 <= b < m ==> #[trigger] m_rows@[a]@[b] == fzy_m(nd, hs, case_sensitive, a, b),
                j <= m,
                d_cur@.len() == j,
                m_cur@.len() == j,
                forall|b: int| 0 <= b < j ==> #[trigger] d_cur@[b] == fzy_d(nd, hs, case_sensitive, i as int, b),
                forall|b: int| 0 <= b < j ==> #[trigger] m_cur@[b] == fzy_m(nd, hs, case_sensitive, i as int, b),
                prev_score == (if j == 0 { SCORE_MIN as int } else { fzy_m(nd, hs, case_sensitive, i as int, j - 1) }),
            decreases m - j,
        {
            proof {
                lemma_fzy_bounds(nd, hs, case_sensitive, i as int, j as int);
                if j > 0 {
                    lemma_fzy_bounds(nd, hs, case_sensitive, i as int, j - 1);
                }
                if i > 0 && j > 0 {
                    lemma_fzy_bounds(nd, hs, case_sensitive, i - 1, j - 1);
                }
            }
            if char_equal(needle[i], haystack[j], case_sensitive) {
                let score: i64 = if i == 0 {
                    -(j as i64) + match_bonus[j]
                } else if j > 0 {
                    let prev_m = m_rows[i - 1][j - 1];
                    let prev_d = d_rows[i - 1][j - 1];
                    let a = prev_m + match_bonus[j];
                    let b = prev_d + SCORE_MATCH_CONSECUTIVE;
                    if a >= b {
                        a
                    } else {
                        b
                    }
                } else {
                    SCORE_MIN
                };
                d_cur.push(score);
                let ext = prev_score + gap;
                prev_score = if score >= ext { score } else { ext };
                m_cur.push(prev_score);
            } else {
                d_cur.push(SCORE_MIN);
                prev_score = prev_score + gap;
                m_cur.push(prev_score);
            }
            j += 1;
        }
        d_rows.push(d_cur);
        m_rows.push(m_cur);
        i += 1;
    }
    let final_score = m_rows[n - 1][m - 1];

    // Backtrace
    pos.clear();
    let mut k: usize = 0;
    while k < n
        invariant
            k <= n,
            pos@.len() == k,
            forall|q: int| 0 <= q < k ==> #[trigger] pos@[q] == 0,
        decreases n - k,
    {
        pos.push(0);
        k += 1;
    }
    proof {
        assert(pos@ =~= Seq::new(n as nat, |q: int| 0usize));
    }
    let mut match_required = false;
    let mut j: usize = m - 1;
    let mut ii: usize = n;
    while ii > 0
        invariant
            n == nd.len(),
            m == hs.len(),
            0 < n < m,
            ii <= n,
            j < m,
            pos@.len() == n,
            fzy_trace(nd, hs, case_sensitive, ii as int, j as int, match_required, pos@) == spec_fzy_positions(
                nd,
                hs,
                case_sensitive,
            ),
            forall|q: int| 0 <= q < n ==> #[trigger] pos@[q] < m,
            d_rows@.len() == n,
            m_rows@.len() == n,
            forall|a: int| 0 <= a < n ==> (#[trigger] d_rows@[a])@.len() == m,
            forall|a: int| 0 <= a < n ==> (#[trigger] m_rows@[a])@.len() == m,
            forall|a: int, b: int|
                0 <= a < n && 0 <= b < m ==> #[trigger] d_rows@[a]@[b] == fzy_d(nd, hs, case_sensitive, a, b),
            forall|a: int, b: int|
                0 <= a < n && 0 <= b < m ==> #[trigger] m_rows@[a]@[b] == fzy_m(nd, hs, case_sensitive, a, b),
        decreases ii,
    {
        let i = ii - 1;
        let ghost j0 = j;
        let ghost mr0 = match_required;
        let ghost pos0 = pos@;
        loop
            invariant_except_break
                pos@ == pos0,
                match_required == mr0,
                fzy_trace_col(nd, hs, case_sensitive, i as int, j0 as int, mr0) == fzy_trace_col(
                    nd,
                    hs,
                    case_sensitive,
                    i as int,
                    j as int,
                    mr0,
                ),
            invariant
                n == nd.len(),
                m == hs.len(),
                0 < n < m,
                i < n,
                ii == i + 1,
                j < m,
                j0 < m,
                pos@.len() == n,
                forall|q: int| 0 <= q < n ==> #[trigger] pos@[q] < m,
                d_rows@.len() == n,
                m_rows@.len() == n,
                forall|a: int| 0 <= a < n ==> (#[trigger] d_rows@[a])@.len() == m,
                forall|a: int| 0 <= a < n ==> (#[trigger] m_rows@[a])@.len() == m,
                forall|a: int, b: int|
                    0 <= a < n && 0 <= b < m ==> #[trigger] d_rows@[a]@[b] == fzy_d(nd, hs, case_sensitive, a, b),
                forall|a: int, b: int|
                    0 <= a < n && 0 <= b < m ==> #[trigger] m_rows@[a]@[b] == fzy_m(nd, hs, case_sensitive, a, b),
            ensures
                fzy_trace(nd, hs, case_sensitive, i as int, j as int, match_required, pos@) == fzy_trace(
                    nd,
                    hs,
                    case_sensitive,
                    ii as int,
                    j0 as int,
                    mr0,
                    pos0,
                ),
            decreases j,
        {
            let dv = d_rows[i][j];
            let mv = m_rows[i][j];
            if dv != SCORE_MIN && (match_required || dv == mv) {
                proof {
                    if i > 0 && j > 0 {
                        lemma_fzy_bounds(nd, hs, case_sensitive, i - 1, j - 1);
                    }
                }
                match_required = i > 0 && j > 0 && mv == d_rows[i - 1][j - 1] + SCORE_MATCH_CONSECUTIVE;
                pos.set(i, j);
                j = if j > 0 { j - 1 } else { 0 };
                break;
            }
            if j == 0 {
                break;
            }
            j -= 1;
        }
        ii -= 1;
    }
    final_score
}

fn fzy_score_rolling(needle: &[char], haystack: &[char], case_sensitive: bool, match_bonus: &Vec<i64>) -> (r: i64)
    requires
        0 < needle@.len() < haystack@.len() <= MATCH_MAX_LEN,
        match_bonus@.len() == haystack@.len(),
        forall|j: int| 0 <= j < haystack@.len() ==> #[trigger] match_bonus@[j] == spec_bonus_at(haystack@, j),
    ensures
        r == fzy_m(needle@, haystack@, case_sensitive, needle@.len() - 1, haystack@.len() - 1),
{
    let n = needle.len();
    let m = haystack.len();
    let ghost nd = needle@;
    let ghost hs = haystack@;
    let mut d_row: Vec<i64> = Vec::new();
    let mut m_row: Vec<i64> = Vec::new();
    let mut k: usize = 0;
    while k < m
        invariant
            k <= m,
            d_row@.len() == k,
            m_row@.len() == k,
        decreases m - k,
    {
        d_row.push(SCORE_MIN);
        m_row.push(SCORE_MIN);
        k += 1;
    }
    let mut i: usize = 0;
    while i < n
        invariant
            n == nd.len(),
            m == hs.len(),
            nd == needle@,
            hs == haystack@,
            0 < n < m <= MATCH_MAX_LEN,
            i <= n,
            match_bonus@.len() == m,
            forall|j: int| 0 <= j < m ==> #[trigger] match_bonus@[j] == spec_bonus_at(hs, j),
            d_row@.len() == m,
            m_row@.len() == m,
            i > 0 ==> forall|b: int| 0 <= b < m ==> #[trigger] d_row@[b] == fzy_d(nd, hs, case_sensitive, i - 1, b),
            i > 0 ==> forall|b: int| 0 <= b < m ==> #[trigger] m_row@[b] == fzy_m(nd, hs, case_sensitive, i - 1, b),
        decreases n - i,
    {
        let gap: i64 = if i == n - 1 { SCORE_GAP_TRAILING } else { SCORE_GAP_INNER };
        let mut prev_score: i64 = SCORE_MIN;
        let mut prev_d: i64 = SCORE_MIN;
        let mut prev_m: i64 = SCORE_MIN;
        let ghost old_d = d_row@;
        let ghost old_m = m_row@;
        let mut j: usize = 0;
        while j < m
            invariant
                n == nd.len(),
                m == hs.len(),
                nd == needle@,
                hs == haystack@,
                0 < n < m <= MATCH_MAX_LEN,
                i < n,
                gap == spec_gap(n as int, i as int),
                match_bonus@.len() == m,
                forall|q: int| 0 <= q < m ==> #[trigger] match_bonus@[q] == spec_bonus_at(hs, q),
                d_row@.len() == m,
                m_row@.len() == m,
                old_d.len() == m,
                old_m.len() == m,
                i > 0 ==> forall|b: int| 0 <= b < m ==> #[trigger] old_d[b] == fzy_d(nd, hs, case_sensitive, i - 1, b),
                i > 0 ==> forall|b: int| 0 <= b < m ==> #[trigger] old_m[b] == fzy_m(nd, hs, case_sensitive, i - 1, b),
                j <= m,
                forall|b: int| j <= b < m ==> #[trigger] d_row@[b] == old_d[b],
                forall|b: int| j <= b < m ==> #[trigger] m_row@[b] == old_m[b],
                forall|b: int| 0 <= b < j ==> #[trigger] d_row@[b] == fzy_d(nd, hs, case_sensitive, i as int, b),
                forall|b: int| 0 <= b < j ==> #[trigger] m_row@[b] == fzy_m(nd, hs, case_sensitive, i as int, b),
                prev_score == (if j == 0 { SCORE_MIN as int } else { fzy_m(nd, hs, case_sensitive, i as int, j - 1) }),
                j > 0 && i > 0 ==> prev_d == old_d[j - 1] && prev_m == old_m[j - 1],
            decreases m - j,
        {
            proof {
                lemma_fzy_bounds(nd, hs, case_sensitive, i as int, j as int);
                if j > 0 {
                    lemma_fzy_bounds(nd, hs, case_sensitive, i as int, j - 1);
                }
                if i > 0 && j > 0 {
                    lemma_fzy_bounds(nd, hs, case_sensitive, i - 1, j - 1);
                }
            }
            let od = d_row[j];
            let om = m_row[j];
            if char_equal(needle[i], haystack[j], case_sensitive) {
                let score: i64 = if i == 0 {
                    -(j as i64) + match_bonus[j]
                } else if j > 0 {
                    let a = prev_m + match_bonus[j];
                    let b = prev_d + SCORE_MATCH_CONSECUTIVE;
                    if a >= b {
                        a
                    } else {
                        b
                    }
                } else {
                    SCORE_MIN
                };
                d_row.set(j, score);
                let ext = prev_score + gap;
                prev_score = if score >= ext { score } else { ext };
                m_row.set(j, prev_score);
            } else {
                d_row.set(j, SCORE_MIN);
                prev_score = prev_score + gap;
                m_row.set(j, prev_score);
            }
            prev_d = od;
            prev_m = om;
            j += 1;
        }
        i += 1;
    }
    m_row[m - 1]
}


// ---------------------------------------------------------------------------
// Typo-tolerant pre-filter
// ---------------------------------------------------------------------------

/// Character equality used by the typo-tolerant paths: exact when case
/// sensitive, otherwise after ASCII lowercasing of both sides.
pub open spec fn spec_typo_eq(a: char, b: char, cs: bool) -> bool {
    if cs {
        a == b
    } else {
        spec_ascii_lower(a) == spec_ascii_lower(b)
    }
}

/// Greedy forward scan allowing needle characters to be skipped as typos:
/// each needle character is looked up in the rest of the haystack; when it is
/// absent it costs one typo and the scan position is kept. Returns whether the
/// scan finishes within `max_typos` typos. `j` is the scan position, `t` the
/// typos used so far.
pub open spec fn spec_can_match_from(
    choice: Seq<char>,
    pattern: Seq<char>,
    cs: bool,
    max_typos: int,
    i: int,
    j: int,
    t: int,
) -> bool
    decreases pattern.len() - i,
{
    if i >= pattern.len() || i < 0 {
        true
    } else {
        match spec_find_from(choice, pattern[i], cs, j) {
            Some(k) => spec_can_match_from(choice, pattern, cs, max_typos, i + 1, k + 1, t),
            None => if t + 1 > max_typos {
                false
            } else {
                spec_can_match_from(choice, pattern, cs, max_typos, i + 1, j, t + 1)
            },
        }
    }
}

/// First position at or after `j` where `c` occurs in `choice`.
pub open spec fn spec_find_from(choice: Seq<char>, c: char, cs: bool, j: int) -> Option<int>
    decreases choice.len() - j,
{
    if j >= choice.len() || j < 0 {
        None
    } else if spec_typo_eq(c, choice[j], cs) {
        Some(j)
    } else {
        spec_find_from(choice, c, cs, j + 1)
    }
}

pub open spec fn spec_can_match_with_typos(choice: Seq<char>, pattern: Seq<char>, cs: bool, max_typos: int) -> bool {
    if pattern.len() > choice.len() + max_typos {
        false
    } else {
        spec_can_match_from(choice, pattern, cs, max_typos, 0, 0, 0)
    }
}

/// Fast check that the needle can plausibly match with up to `max_typos`
/// unmatched needle characters. `lower_pattern` is the ASCII-lowercased pattern.
pub fn can_match_with_typos(
    choice: &[char],
    pattern: &[char],
    lower_pattern: &[char],
    case_sensitive: bool,
    max_typos: usize,
) -> (r: bool)
    requires
        lower_pattern@.len() == pattern@.len(),
        forall|k: int| 0 <= k < pattern@.len() ==> #[trigger] lower_pattern@[k] == spec_ascii_lower(pattern@[k]),
    ensures
        r == spec_can_match_with_typos(choice@, pattern@, case_sensitive, max_typos as int),
{
    let n = pattern.len();
    let m = choice.len();
    if n as u128 > m as u128 + max_typos as u128 {
        return false;
    }
    let mut typos_used: usize = 0;
    let mut j: usize = 0;
    let mut i: usize = 0;
    while i < n
        invariant
            n == pattern@.len(),
            m == choice@.len(),
            i <= n,
            j <= m,
            typos_used <= max_typos,
            lower_pattern@.len() == n,
            forall|k: int| 0 <= k < n ==> #[trigger] lower_pattern@[k] == spec_ascii_lower(pattern@[k]),
            spec_can_match_from(choice@, pattern@, case_sensitive, max_typos as int, 0, 0, 0)
                == spec_can_match_from(choice@, pattern@, case_sensitive, max_typos as int, i as int, j as int, typos_used as int),
        decreases n - i,
    {
        let saved_j = j;
        let mut found = false;
        while j < m && !found
            invariant
                n == pattern@.len(),
                m == choice@.len(),
                i < n,
                saved_j <= j <= m,
                lower_pattern@.len() == n,
                forall|k: int| 0 <= k < n ==> #[trigger] lower_pattern@[k] == spec_ascii_lower(pattern@[k]),
                !found ==> spec_find_from(choice@, pattern@[i as int], case_sensitive, saved_j as int)
                    == spec_find_from(choice@, pattern@[i as int], case_sensitive, j as int),
                found ==> j >= 1 && spec_find_from(choice@, pattern@[i as int], case_sensitive, saved_j as int)
                    == Some(j - 1),
            decreases m - j,
        {
            let matches = if case_sensitive {
                pattern[i] == choice[j]
            } else {
                lower_pattern[i] == ascii_lower(choice[j])
            };
            if matches {
                found = true;
            }
            j += 1;
        }
        if !found {
            j = saved_j;
            if typos_used >= max_typos {
                return false;
            }
            typos_used += 1;
        }
        i += 1;
    }
    true
}


// ---------------------------------------------------------------------------
// Typo-tolerant DP
// ---------------------------------------------------------------------------

/// `D[t][i][j]` of the typo-tolerant DP: layer `t` allows `t` typos, either
/// substitutions (needle[i] aligned to a different haystack[j]) or needle
/// deletions.
pub open spec fn fzy_dt(needle: Seq<char>, haystack: Seq<char>, cs: bool, t: int, i: int, j: int) -> int
    decreases i, j, 0int,
{
    if i < 0 || j < 0 || t < 0 {
        SCORE_MIN as int
    } else {
        let matched = spec_typo_eq(needle[i], haystack[j], cs);
        let exact: int = if !matched {
            SCORE_MIN as int
        } else if i == 0 {
            -j + spec_bonus_at(haystack, j)
        } else if j > 0 {
            let pm = fzy_mt(needle, haystack, cs, t, i - 1, j - 1);
            let pd = fzy_dt(needle, haystack, cs, t, i - 1, j - 1);
            let a = if pm != SCORE_MIN { pm + spec_bonus_at(haystack, j) } else { SCORE_MIN as int };
            let a = if a >= SCORE_MIN { a } else { SCORE_MIN as int };
            let b = if pd != SCORE_MIN { pd + SCORE_MATCH_CONSECUTIVE } else { SCORE_MIN as int };
            let b = if b >= SCORE_MIN { b } else { SCORE_MIN as int };
            if a >= b { a } else { b }
        } else {
            SCORE_MIN as int
        };
        if !matched && t > 0 {
            if i == 0 {
                let c = -j + SCORE_TYPO;
                if c >= exact { c } else { exact }
            } else if j > 0 {
                let pm = fzy_mt(needle, haystack, cs, t - 1, i - 1, j - 1);
                if pm != SCORE_MIN {
                    let c = pm + SCORE_TYPO;
                    if c >= exact { c } else { exact }
                } else {
                    exact
                }
            } else {
                exact
            }
        } else {
            exact
        }
    }
}

/// Score for deleting needle character `i` in layer `t` at haystack column `j`.
pub open spec fn fzy_del(needle: Seq<char>, haystack: Seq<char>, cs: bool, t: int, i: int, j: int) -> int
    decreases i, j, 1int,
{
    if i < 0 || j < 0 || t <= 0 {
        SCORE_MIN as int
    } else if i == 0 {
        -j + SCORE_TYPO
    } else {
        let pv = fzy_mt(needle, haystack, cs, t - 1, i - 1, j);
        if pv == SCORE_MIN { SCORE_MIN as int } else { pv + SCORE_TYPO }
    }
}

/// `M[t][i][j]` of the typo-tolerant DP.
pub open spec fn fzy_mt(needle: Seq<char>, haystack: Seq<char>, cs: bool, t: int, i: int, j: int) -> int
    decreases i, j, 2int,
{
    if i < 0 || j < 0 || t < 0 {
        SCORE_MIN as int
    } else {
        let prev = if j == 0 { SCORE_MIN as int } else { fzy_mt(needle, haystack, cs, t, i, j - 1) };
        let gap = spec_gap(needle.len() as int, i);
        let d = fzy_dt(needle, haystack, cs, t, i, j);
        let p1 = if d == SCORE_MIN { prev + gap } else if d >= prev + gap { d } else { prev + gap };
        let del = fzy_del(needle, haystack, cs, t, i, j);
        if t > 0 && del != SCORE_MIN && del > p1 {
            del
        } else {
            p1
        }
    }
}

pub open spec fn typo_lo(j: int) -> int {
    SCORE_MIN - 2 * j - 2 - 300
}

proof fn lemma_fzy_typo_bounds(needle: Seq<char>, haystack: Seq<char>, cs: bool, t: int, i: int, j: int)
    requires
        0 <= t,
        0 <= i < needle.len(),
        0 <= j < haystack.len(),
    ensures
        typo_lo(j + 1) <= fzy_dt(needle, haystack, cs, t, i, j) <= 200 * (i + 1),
        SCORE_MIN - 2 * (j + 1) <= fzy_mt(needle, haystack, cs, t, i, j) <= 200 * (i + 1),
        typo_lo(j + 1) <= fzy_del(needle, haystack, cs, t, i, j) <= 200 * (i + 1),
    decreases i, j,
{
    if j > 0 {
        lemma_fzy_typo_bounds(needle, haystack, cs, t, i, j - 1);
    }
    if i > 0 {
        lemma_fzy_typo_bounds(needle, haystack, cs, t, i - 1, j);
        if t > 0 {
            lemma_fzy_typo_bounds(needle, haystack, cs, t - 1, i - 1, j);
        }
        if j > 0 {
            lemma_fzy_typo_bounds(needle, haystack, cs, t, i - 1, j - 1);
            if t > 0 {
                lemma_fzy_typo_bounds(needle, haystack, cs, t - 1, i - 1, j - 1);
            }
        }
    }
    let d = fzy_dt(needle, haystack, cs, t, i, j);
    assert(typo_lo(j + 1) <= d <= 200 * (i + 1));
    let del = fzy_del(needle, haystack, cs, t, i, j);
    assert(typo_lo(j + 1) <= del <= 200 * (i + 1));
    let prev = if j == 0 { SCORE_MIN as int } else { fzy_mt(needle, haystack, cs, t, i, j - 1) };
    assert(prev >= SCORE_MIN - 2 * j);
}

/// Best final score over typo layers `0..=t`.
pub open spec fn fzy_best_upto(needle: Seq<char>, haystack: Seq<char>, cs: bool, t: int) -> int
    decreases t + 1,
{
    if t < 0 {
        SCORE_MIN as int
    } else {
        let prev = fzy_best_upto(needle, haystack, cs, t - 1);
        let s = fzy_mt(needle, haystack, cs, t, needle.len() - 1, haystack.len() - 1);
        if s > prev { s } else { prev }
    }
}

/// A cell of needle row `i` sees at most `i + 1` typos: every layer from
/// `i + 1` on holds the same values.
proof fn lemma_layers_saturate(needle: Seq<char>, haystack: Seq<char>, cs: bool, t: int, i: int, j: int)
    requires
        0 <= i,
        t >= i + 1,
    ensures
        fzy_mt(needle, haystack, cs, t, i, j) == fzy_mt(needle, haystack, cs, i + 1, i, j),
        fzy_dt(needle, haystack, cs, t, i, j) == fzy_dt(needle, haystack, cs, i + 1, i, j),
        fzy_del(needle, haystack, cs, t, i, j) == fzy_del(needle, haystack, cs, i + 1, i, j),
    decreases i, j,
{
    if j >= 0 {
        if j > 0 {
            lemma_layers_saturate(needle, haystack, cs, t, i, j - 1);
        }
        if i > 0 {
            lemma_layers_saturate(needle, haystack, cs, t, i - 1, j);
            lemma_layers_saturate(needle, haystack, cs, t - 1, i - 1, j);
            lemma_layers_saturate(needle, haystack, cs, i + 1, i - 1, j);
            if j > 0 {
                lemma_layers_saturate(needle, haystack, cs, t, i - 1, j - 1);
                lemma_layers_saturate(needle, haystack, cs, t - 1, i - 1, j - 1);
                lemma_layers_saturate(needle, haystack, cs, i + 1, i - 1, j - 1);
            }
        }
        assert(fzy_dt(needle, haystack, cs, t, i, j) == fzy_dt(needle, haystack, cs, i + 1, i, j));
        assert(fzy_del(needle, haystack, cs, t, i, j) == fzy_del(needle, haystack, cs, i + 1, i, j));
    }
}

/// The best final cell over layers `0..=t` is the same for every `t` from the
/// needle's length on.
proof fn lemma_best_saturates(needle: Seq<char>, haystack: Seq<char>, cs: bool, t: int)
    requires
        0 < needle.len(),
        t >= needle.len(),
    ensures
        fzy_best_upto(needle, haystack, cs, t) == fzy_best_upto(needle, haystack, cs, needle.len() as int),
        fzy_best_t(needle, haystack, cs, t) == fzy_best_t(needle, haystack, cs, needle.len() as int),
    decreases t,
{
    let n = needle.len() as int;
    if t > n {
        lemma_best_saturates(needle, haystack, cs, t - 1);
        lemma_layers_saturate(needle, haystack, cs, t, n - 1, haystack.len() - 1);
        lemma_layers_saturate(needle, haystack, cs, n, n - 1, haystack.len() - 1);
    }
}

/// Allowing more typos than the needle has characters scores as allowing
/// one per character: the layers above the needle's length add nothing, and
/// the backtrace starts from the same layer.
pub proof fn lemma_typo_layers_saturate(needle: Seq<char>, haystack: Seq<char>, cs: bool, t: int)
    requires
        0 < needle.len(),
        t >= needle.len(),
    ensures
        spec_fzy_typo_score(needle, haystack, cs, t) == spec_fzy_typo_score(needle, haystack, cs, needle.len() as int),
        spec_fzy_typo_positions(needle, haystack, cs, t) == spec_fzy_typo_positions(
            needle,
            haystack,
            cs,
            needle.len() as int,
        ),
{
    lemma_best_saturates(needle, haystack, cs, t);
}

/// Score of the typo-tolerant DP with up to `t_max` typos: the best final `M`
/// over the layers, or `None` when no layer rises above `SCORE_MIN`.
pub open spec fn spec_fzy_typo_score(needle: Seq<char>, haystack: Seq<char>, cs: bool, t_max: int) -> Option<i64> {
    let best = fzy_best_upto(needle, haystack, cs, t_max);
    if best == SCORE_MIN { None } else { Some(best as i64) }
}

proof fn lemma_best_bounds(needle: Seq<char>, haystack: Seq<char>, cs: bool, t: int)
    requires
        0 < needle.len(),
        0 < haystack.len(),
    ensures
        SCORE_MIN <= fzy_best_upto(needle, haystack, cs, t) <= 200 * needle.len(),
    decreases t + 1,
{
    if t >= 0 {
        lemma_best_bounds(needle, haystack, cs, t - 1);
        lemma_fzy_typo_bounds(needle, haystack, cs, t, needle.len() - 1, haystack.len() - 1);
    }
}

/// Computes one needle row of every typo layer from the previous row.
fn fzy_typo_row(
    needle: &[char],
    haystack: &[char],
    lower_needle: &[char],
    lower_haystack: &[char],
    match_bonus: &[i64],
    case_sensitive: bool,
    t_max: usize,
    i: usize,
    prev_d: &Vec<Vec<i64>>,
    prev_m: &Vec<Vec<i64>>,
) -> (r: (Vec<Vec<i64>>, Vec<Vec<i64>>))
    requires
        0 < needle@.len() <= TYPO_MAX_NEEDLE_LEN,
        0 < haystack@.len() <= MATCH_MAX_LEN,
        t_max <= needle@.len(),
        i < needle@.len(),
        lower_needle@.len() == needle@.len(),
        lower_haystack@.len() == haystack@.len(),
        forall|k: int| 0 <= k < needle@.len() ==> #[trigger] lower_needle@[k] == spec_ascii_lower(needle@[k]),
        forall|k: int| 0 <= k < haystack@.len() ==> #[trigger] lower_haystack@[k] == spec_ascii_lower(haystack@[k]),
        match_bonus@.len() == haystack@.len(),
        forall|j: int| 0 <= j < haystack@.len() ==> #[trigger] match_bonus@[j] == spec_bonus_at(haystack@, j),
        i > 0 ==> prev_d@.len() == t_max + 1 && prev_m@.len() == t_max + 1,
        i > 0 ==> forall|t: int| 0 <= t <= t_max ==> (#[trigger] prev_d@[t])@.len() == haystack@.len(),
            i > 0 ==> forall|t: int| 0 <= t <= t_max ==> (#[trigger] prev_m@[t])@.len() == haystack@.len(),
        i > 0 ==> forall|t: int, j: int| 0 <= t <= t_max && 0 <= j < haystack@.len() ==> #[trigger] prev_d@[t]@[j]
            == fzy_dt(needle@, haystack@, case_sensitive, t, i - 1, j),
        i > 0 ==> forall|t: int, j: int| 0 <= t <= t_max && 0 <= j < haystack@.len() ==> #[trigger] prev_m@[t]@[j]
            == fzy_mt(needle@, haystack@, case_sensitive, t, i - 1, j),
    ensures
        r.0@.len() == t_max + 1,
        r.1@.len() == t_max + 1,
        forall|t: int| 0 <= t <= t_max ==> (#[trigger] r.0@[t])@.len() == haystack@.len(),
        forall|t: int| 0 <= t <= t_max ==> (#[trigger] r.1@[t])@.len() == haystack@.len(),
        forall|t: int, j: int| 0 <= t <= t_max && 0 <= j < haystack@.len() ==> #[trigger] r.0@[t]@[j]
            == fzy_dt(needle@, haystack@, case_sensitive, t, i as int, j),
        forall|t: int, j: int| 0 <= t <= t_max && 0 <= j < haystack@.len() ==> #[trigger] r.1@[t]@[j]
            == fzy_mt(needle@, haystack@, case_sensitive, t, i as int, j),
{
    let n = needle.len();
    let m = haystack.len();
    let ghost nd = needle@;
    let ghost hs = haystack@;
    let gap_score: i64 = if i == n - 1 { SCORE_GAP_TRAILING } else { SCORE_GAP_INNER };
    let mut cur_d: Vec<Vec<i64>> = Vec::new();
    let mut cur_m: Vec<Vec<i64>> = Vec::new();
    let mut t: usize = 0;
    while t <= t_max
        invariant
            n == nd.len(),
            m == hs.len(),
            nd == needle@,
            hs == haystack@,
            0 < n <= TYPO_MAX_NEEDLE_LEN,
            0 < m <= MATCH_MAX_LEN,
            t_max <= n,
            i < n,
            gap_score == spec_gap(n as int, i as int),
            lower_needle@.len() == n,
            lower_haystack@.len() == m,
            forall|k: int| 0 <= k < n ==> #[trigger] lower_needle@[k] == spec_ascii_lower(nd[k]),
            forall|k: int| 0 <= k < m ==> #[trigger] lower_haystack@[k] == spec_ascii_lower(hs[k]),
            match_bonus@.len() == m,
            forall|j: int| 0 <= j < m ==> #[trigger] match_bonus@[j] == spec_bonus_at(hs, j),
            i > 0 ==> prev_d@.len() == t_max + 1 && prev_m@.len() == t_max + 1,
            i > 0 ==> forall|q: int| 0 <= q <= t_max ==> (#[trigger] prev_d@[q])@.len() == m,
            i > 0 ==> forall|q: int| 0 <= q <= t_max ==> (#[trigger] prev_m@[q])@.len() == m,
            i > 0 ==> forall|q: int, j: int| 0 <= q <= t_max && 0 <= j < m ==> #[trigger] prev_d@[q]@[j]
                == fzy_dt(nd, hs, case_sensitive, q, i - 1, j),
            i > 0 ==> forall|q: int, j: int| 0 <= q <= t_max && 0 <= j < m ==> #[trigger] prev_m@[q]@[j]
                == fzy_mt(nd, hs, case_sensitive, q, i - 1, j),
            t <= t_max + 1,
            cur_d@.len() == t,
            cur_m@.len() == t,
            forall|q: int| 0 <= q < t ==> (#[trigger] cur_d@[q])@.len() == m,
            forall|q: int| 0 <= q < t ==> (#[trigger] cur_m@[q])@.len() == m,
            forall|q: int, j: int| 0 <= q < t && 0 <= j < m ==> #[trigger] cur_d@[q]@[j]
                == fzy_dt(nd, hs, case_sensitive, q, i as int, j),
            forall|q: int, j: int| 0 <= q < t && 0 <= j < m ==> #[trigger] cur_m@[q]@[j]
                == fzy_mt(nd, hs, case_sensitive, q, i as int, j),
        decreases t_max + 1 - t,
    {
        let mut d_row: Vec<i64> = Vec::new();
        let mut m_row: Vec<i64> = Vec::new();
        let mut prev_score: i64 = SCORE_MIN;
        let mut j: usize = 0;
        while j < m
            invariant
                n == nd.len(),
                m == hs.len(),
                nd == needle@,
                hs == haystack@,
                0 < n <= TYPO_MAX_NEEDLE_LEN,
                0 < m <= MATCH_MAX_LEN,
                t_max <= n,
                i < n,
                t <= t_max,
                gap_score == spec_gap(n as int, i as int),
                lower_needle@.len() == n,
                lower_haystack@.len() == m,
                forall|k: int| 0 <= k < n ==> #[trigger] lower_needle@[k] == spec_ascii_lower(nd[k]),
                forall|k: int| 0 <= k < m ==> #[trigger] lower_haystack@[k] == spec_ascii_lower(hs[k]),
                match_bonus@.len() == m,
                forall|q: int| 0 <= q < m ==> #[trigger] match_bonus@[q] == spec_bonus_at(hs, q),
                i > 0 ==> prev_d@.len() == t_max + 1 && prev_m@.len() == t_max + 1,
                i > 0 ==> forall|q: int| 0 <= q <= t_max ==> (#[trigger] prev_d@[q])@.len() == m,
            i > 0 ==> forall|q: int| 0 <= q <= t_max ==> (#[trigger] prev_m@[q])@.len() == m,
                i > 0 ==> forall|q: int, jj: int| 0 <= q <= t_max && 0 <= jj < m ==> #[trigger] prev_d@[q]@[jj]
                    == fzy_dt(nd, hs, case_sensitive, q, i - 1, jj),
                i > 0 ==> forall|q: int, jj: int| 0 <= q <= t_max && 0 <= jj < m ==> #[trigger] prev_m@[q]@[jj]
                    == fzy_mt(nd, hs, case_sensitive, q, i - 1, jj),
                j <= m,
                d_row@.len() == j,
                m_row@.len() == j,
                forall|b: int| 0 <= b < j ==> #[trigger] d_row@[b] == fzy_dt(nd, hs, case_sensitive, t as int, i as int, b),
                forall|b: int| 0 <= b < j ==> #[trigger] m_row@[b] == fzy_mt(nd, hs, case_sensitive, t as int, i as int, b),
                prev_score == (if j == 0 { SCORE_MIN as int } else { fzy_mt(nd, hs, case_sensitive, t as int, i as int, j - 1) }),
            decreases m - j,
        {
            proof {
                lemma_fzy_typo_bounds(nd, hs, case_sensitive, t as int, i as int, j as int);
                if j > 0 {
                    lemma_fzy_typo_bounds(nd, hs, case_sensitive, t as int, i as int, j - 1);
                }
                if i > 0 {
                    lemma_fzy_typo_bounds(nd, hs, case_sensitive, t as int, i - 1, j as int);
                    if t > 0 {
                        lemma_fzy_typo_bounds(nd, hs, case_sensitive, t - 1, i - 1, j as int);
                    }
                    if j > 0 {
                        lemma_fzy_typo_bounds(nd, hs, case_sensitive, t as int, i - 1, j - 1);
                        if t > 0 {
                            lemma_fzy_typo_bounds(nd, hs, case_sensitive, t - 1, i - 1, j - 1);
                        }
                    }
                }
            }
            let matched = if case_sensitive {
                needle[i] == haystack[j]
            } else {
                lower_needle[i] == lower_haystack[j]
            };
            let mut d_val: i64 = SCORE_MIN;
            if matched {
                if i == 0 {
                    d_val = -(j as i64) + match_bonus[j];
                } else if j > 0 {
                    let pm = prev_m[t][j - 1];
                    let pd = prev_d[t][j - 1];
                    if pm != SCORE_MIN {
                        let c = pm + match_bonus[j];
                        if c > d_val {
                            d_val = c;
                        }
                    }
                    if pd != SCORE_MIN {
                        let c = pd + SCORE_MATCH_CONSECUTIVE;
                        if c > d_val {
                            d_val = c;
                        }
                    }
                }
            }
            if !matched && t > 0 {
                if i == 0 {
                    let c = -(j as i64) + SCORE_TYPO;
                    if c > d_val {
                        d_val = c;
                    }
                } else if j > 0 {
                    let pm = prev_m[t - 1][j - 1];
                    if pm != SCORE_MIN {
                        let c = pm + SCORE_TYPO;
                        if c > d_val {
                            d_val = c;
                        }
                    }
                }
            }
            d_row.push(d_val);
            if d_val == SCORE_MIN {
                prev_score = prev_score + gap_score;
            } else {
                let ext = prev_score + gap_score;
                prev_score = if d_val >= ext { d_val } else { ext };
            }
            if t > 0 {
                let del_from: i64 = if i == 0 {
                    -(j as i64) + SCORE_TYPO
                } else {
                    let pv = prev_m[t - 1][j];
                    if pv == SCORE_MIN {
                        SCORE_MIN
                    } else {
                        pv + SCORE_TYPO
                    }
                };
                if del_from != SCORE_MIN && del_from > prev_score {
                    prev_score = del_from;
                }
            }
            m_row.push(prev_score);
            j += 1;
        }
        cur_d.push(d_row);
        cur_m.push(m_row);
        t += 1;
    }
    (cur_d, cur_m)
}

/// Score-only typo-tolerant fzy matching, keeping one needle row of every
/// typo layer at a time.
pub fn fzy_score_typos_rolling(
    needle: &[char],
    haystack: &[char],
    lower_needle: &[char],
    lower_haystack: &[char],
    match_bonus: &[i64],
    case_sensitive: bool,
    max_typos: usize,
) -> (r: Option<i64>)
    requires
        0 < needle@.len() <= TYPO_MAX_NEEDLE_LEN,
        0 < haystack@.len() <= MATCH_MAX_LEN,
        lower_needle@.len() == needle@.len(),
        lower_haystack@.len() == haystack@.len(),
        forall|k: int| 0 <= k < needle@.len() ==> #[trigger] lower_needle@[k] == spec_ascii_lower(needle@[k]),
        forall|k: int| 0 <= k < haystack@.len() ==> #[trigger] lower_haystack@[k] == spec_ascii_lower(haystack@[k]),
        match_bonus@.len() == haystack@.len(),
        forall|j: int| 0 <= j < haystack@.len() ==> #[trigger] match_bonus@[j] == spec_bonus_at(haystack@, j),
    ensures
        r == spec_fzy_typo_score(needle@, haystack@, case_sensitive, max_typos as int),
{
    proof {
        if max_typos > needle@.len() {
            lemma_typo_layers_saturate(needle@, haystack@, case_sensitive, max_typos as int);
        }
    }
    let max_typos = if max_typos <= needle.len() {
        max_typos
    } else {
        needle.len()
    };
    let n = needle.len();
    let m = haystack.len();
    let mut d_prev: Vec<Vec<i64>> = Vec::new();
    let mut m_prev: Vec<Vec<i64>> = Vec::new();
    let mut i: usize = 0;
    while i < n
        invariant
            n == needle@.len(),
            m == haystack@.len(),
            0 < n <= TYPO_MAX_NEEDLE_LEN,
            0 < m <= MATCH_MAX_LEN,
            max_typos <= n,
            i <= n,
            lower_needle@.len() == n,
            lower_haystack@.len() == m,
            forall|k: int| 0 <= k < n ==> #[trigger] lower_needle@[k] == spec_ascii_lower(needle@[k]),
            forall|k: int| 0 <= k < m ==> #[trigger] lower_haystack@[k] == spec_ascii_lower(haystack@[k]),
            match_bonus@.len() == m,
            forall|j: int| 0 <= j < m ==> #[trigger] match_bonus@[j] == spec_bonus_at(haystack@, j),
            i > 0 ==> d_prev@.len() == max_typos + 1 && m_prev@.len() == max_typos + 1,
            i > 0 ==> forall|q: int| 0 <= q <= max_typos ==> (#[trigger] d_prev@[q])@.len() == m,
            i > 0 ==> forall|q: int| 0 <= q <= max_typos ==> (#[trigger] m_prev@[q])@.len() == m,
            i > 0 ==> forall|q: int, j: int| 0 <= q <= max_typos && 0 <= j < m ==> #[trigger] d_prev@[q]@[j]
                == fzy_dt(needle@, haystack@, case_sensitive, q, i - 1, j),
            i > 0 ==> forall|q: int, j: int| 0 <= q <= max_typos && 0 <= j < m ==> #[trigger] m_prev@[q]@[j]
                == fzy_mt(needle@, haystack@, case_sensitive, q, i - 1, j),
        decreases n - i,
    {
        let (dr, mr) = fzy_typo_row(
            needle,
            haystack,
            lower_needle,
            lower_haystack,
            match_bonus,
            case_sensitive,
            max_typos,
            i,
            &d_prev,
            &m_prev,
        );
        d_prev = dr;
        m_prev = mr;
        i += 1;
    }
    let mut best: i64 = SCORE_MIN;
    let mut t: usize = 0;
    while t <= max_typos
        invariant
            n == needle@.len(),
            m == haystack@.len(),
            0 < n <= TYPO_MAX_NEEDLE_LEN,
            0 < m,
            max_typos <= n,
            t <= max_typos + 1,
            m_prev@.len() == max_typos + 1,
            forall|q: int| 0 <= q <= max_typos ==> (#[trigger] m_prev@[q])@.len() == m,
            forall|q: int, j: int| 0 <= q <= max_typos && 0 <= j < m ==> #[trigger] m_prev@[q]@[j]
                == fzy_mt(needle@, haystack@, case_sensitive, q, n - 1, j),
            best == fzy_best_upto(needle@, haystack@, case_sensitive, t - 1),
        decreases max_typos + 1 - t,
    {
        proof {
            lemma_best_bounds(needle@, haystack@, case_sensitive, t as int);
        }
        let s = m_prev[t][m - 1];
        if s > best {
            best = s;
        }
        t += 1;
    }
    if best == SCORE_MIN {
        None
    } else {
        Some(best)
    }
}


/// Full-matrix typo-tolerant scoring with position recovery: `positions`
/// receives the haystack position of every needle character that was matched
/// or substituted, in needle order (deleted needle characters have none).
/// What the typo backtrace does in needle row `i` of layer `t`, scanning down
/// from column `j`: `(0, c)` when the character is a typo (the cell comes from
/// layer `t - 1`) at column `c`, `(1, c)` when it is matched at column `c`,
/// `(2, 0)` when column 0 is passed with neither.
pub open spec fn fzy_typo_step(needle: Seq<char>, haystack: Seq<char>, cs: bool, i: int, t: int, j: int) -> (int, int)
    decreases j,
{
    if j < 0 {
        (2, 0)
    } else {
        let cur = fzy_mt(needle, haystack, cs, t, i, j);
        let del = fzy_del(needle, haystack, cs, t, i, j);
        let dv = fzy_dt(needle, haystack, cs, t, i, j);
        if t > 0 && del != SCORE_MIN && cur == del {
            (0, j)
        } else if dv != SCORE_MIN && dv == cur {
            (1, j)
        } else if j == 0 {
            (2, 0)
        } else {
            fzy_typo_step(needle, haystack, cs, i, t, j - 1)
        }
    }
}

/// The matched columns, last needle character first, after backtracking
/// rows `ii - 1` down to 0 from layer `t` and column `j`.
pub open spec fn fzy_typo_trace(needle: Seq<char>, haystack: Seq<char>, cs: bool, ii: int, t: int, j: int, rev: Seq<usize>) -> Seq<
    usize,
>
    decreases ii,
{
    if ii <= 0 {
        rev
    } else {
        let i = ii - 1;
        let (k, c) = fzy_typo_step(needle, haystack, cs, i, t, j);
        if k == 0 {
            fzy_typo_trace(needle, haystack, cs, i, t - 1, c, rev)
        } else if k == 1 {
            fzy_typo_trace(
                needle,
                haystack,
                cs,
                i,
                t,
                if c > 0 {
                    c - 1
                } else {
                    0
                },
                rev.push(c as usize),
            )
        } else {
            fzy_typo_trace(needle, haystack, cs, i, t, 0, rev)
        }
    }
}

/// The first typo layer among `0..=t` that reaches the best final score.
pub open spec fn fzy_best_t(needle: Seq<char>, haystack: Seq<char>, cs: bool, t: int) -> int
    decreases t + 1,
{
    if t < 0 {
        0
    } else if fzy_mt(needle, haystack, cs, t, needle.len() - 1, haystack.len() - 1) > fzy_best_upto(
        needle,
        haystack,
        cs,
        t - 1,
    ) {
        t
    } else {
        fzy_best_t(needle, haystack, cs, t - 1)
    }
}

/// A step of the typo backtrace lands at or left of where it starts, and a
/// match below the first needle row never lands on column 0 (nothing
/// matches there after an earlier needle character).
proof fn lemma_typo_step(needle: Seq<char>, haystack: Seq<char>, cs: bool, i: int, t: int, j: int)
    requires
        0 <= i,
        0 <= j,
    ensures
        0 <= fzy_typo_step(needle, haystack, cs, i, t, j).1 <= j,
        fzy_typo_step(needle, haystack, cs, i, t, j).0 == 1 && i > 0 ==> fzy_typo_step(needle, haystack, cs, i, t, j).1
            >= 1,
    decreases j,
{
    if j > 0 {
        lemma_typo_step(needle, haystack, cs, i, t, j - 1);
    }
    if i > 0 {
        assert(fzy_dt(needle, haystack, cs, t, i, 0) == SCORE_MIN);
    }
}

/// The typo backtrace gathers columns in strictly falling order, each left
/// of the previous one, provided it starts left of the last one gathered.
proof fn lemma_typo_trace_falls(
    needle: Seq<char>,
    haystack: Seq<char>,
    cs: bool,
    ii: int,
    t: int,
    j: int,
    rev: Seq<usize>,
)
    requires
        0 <= ii,
        0 <= j <= usize::MAX,
        forall|p: int, q: int| 0 <= p < q < rev.len() ==> #[trigger] rev[p] > #[trigger] rev[q],
        ii > 0 && rev.len() > 0 ==> rev.last() > j,
    ensures
        forall|p: int, q: int|
            0 <= p < q < fzy_typo_trace(needle, haystack, cs, ii, t, j, rev).len() ==> #[trigger] fzy_typo_trace(
                needle,
                haystack,
                cs,
                ii,
                t,
                j,
                rev,
            )[p] > #[trigger] fzy_typo_trace(needle, haystack, cs, ii, t, j, rev)[q],
    decreases ii,
{
    if ii > 0 {
        let i = ii - 1;
        let kc = fzy_typo_step(needle, haystack, cs, i, t, j);
        let k = kc.0;
        let c = kc.1;
        lemma_typo_step(needle, haystack, cs, i, t, j);
        if k == 0 {
            lemma_typo_trace_falls(needle, haystack, cs, i, t - 1, c, rev);
            assert(fzy_typo_trace(needle, haystack, cs, ii, t, j, rev) == fzy_typo_trace(
                needle,
                haystack,
                cs,
                i,
                t - 1,
                c,
                rev,
            ));
        } else if k == 1 {
            let r2 = rev.push(c as usize);
            assert forall|p: int, q: int| 0 <= p < q < r2.len() implies #[trigger] r2[p] > #[trigger] r2[q] by {
                if q == rev.len() {
                    assert(rev[p] >= rev.last());
                    if p < rev.len() - 1 {
                        assert(rev[p] > rev[rev.len() - 1]);
                    }
                }
            }
            let j2 = if c > 0 { c - 1 } else { 0 };
            lemma_typo_trace_falls(needle, haystack, cs, i, t, j2, r2);
            assert(fzy_typo_trace(needle, haystack, cs, ii, t, j, rev) == fzy_typo_trace(
                needle,
                haystack,
                cs,
                i,
                t,
                j2,
                r2,
            ));
        } else {
            lemma_typo_trace_falls(needle, haystack, cs, i, t, 0, rev);
            assert(fzy_typo_trace(needle, haystack, cs, ii, t, j, rev) == fzy_typo_trace(
                needle,
                haystack,
                cs,
                i,
                t,
                0,
                rev,
            ));
        }
    }
}

/// The positions the typo DP reports: the backtrace from the last cell of the
/// best layer, in needle order (a character taken as a typo has none).
pub open spec fn spec_fzy_typo_positions(needle: Seq<char>, haystack: Seq<char>, cs: bool, t_max: int) -> Seq<usize> {
    fzy_typo_trace(
        needle,
        haystack,
        cs,
        needle.len() as int,
        fzy_best_t(needle, haystack, cs, t_max),
        haystack.len() - 1,
        Seq::empty(),
    ).reverse()
}

/// The positions the typo DP reports rise strictly.
pub proof fn lemma_typo_positions_rise(needle: Seq<char>, haystack: Seq<char>, cs: bool, t_max: int)
    requires
        0 < haystack.len() <= usize::MAX,
    ensures
        forall|p: int, q: int|
            0 <= p < q < spec_fzy_typo_positions(needle, haystack, cs, t_max).len() ==> #[trigger] spec_fzy_typo_positions(
                needle,
                haystack,
                cs,
                t_max,
            )[p] < #[trigger] spec_fzy_typo_positions(needle, haystack, cs, t_max)[q],
{
    let rev = fzy_typo_trace(
        needle,
        haystack,
        cs,
        needle.len() as int,
        fzy_best_t(needle, haystack, cs, t_max),
        haystack.len() - 1,
        Seq::empty(),
    );
    lemma_typo_trace_falls(
        needle,
        haystack,
        cs,
        needle.len() as int,
        fzy_best_t(needle, haystack, cs, t_max),
        haystack.len() - 1,
        Seq::empty(),
    );
    let pos = rev.reverse();
    assert forall|p: int, q: int| 0 <= p < q < pos.len() implies #[trigger] pos[p] < #[trigger] pos[q] by {
        assert(pos[p] == rev[rev.len() - 1 - p]);
        assert(pos[q] == rev[rev.len() - 1 - q]);
    }
}

pub fn fzy_score_typos_full(
    needle: &[char],
    haystack: &[char],
    lower_needle: &[char],
    lower_haystack: &[char],
    match_bonus: &[i64],
    case_sensitive: bool,
    max_typos: usize,
    positions: &mut Vec<IndexType>,
) -> (r: Option<i64>)
    requires
        0 < needle@.len() <= TYPO_MAX_NEEDLE_LEN,
        0 < haystack@.len() <= MATCH_MAX_LEN,
        lower_needle@.len() == needle@.len(),
        lower_haystack@.len() == haystack@.len(),
        forall|k: int| 0 <= k < needle@.len() ==> #[trigger] lower_needle@[k] == spec_ascii_lower(needle@[k]),
        forall|k: int| 0 <= k < haystack@.len() ==> #[trigger] lower_haystack@[k] == spec_ascii_lower(haystack@[k]),
        match_bonus@.len() == haystack@.len(),
        forall|j: int| 0 <= j < haystack@.len() ==> #[trigger] match_bonus@[j] == spec_bonus_at(haystack@, j),
    ensures
        r == spec_fzy_typo_score(needle@, haystack@, case_sensitive, max_typos as int),
        r is Some ==> final(positions)@.len() <= needle@.len() && forall|k: int|
            0 <= k < final(positions)@.len() ==> #[trigger] final(positions)@[k] < haystack@.len(),
        r is Some ==> final(positions)@ == spec_fzy_typo_positions(needle@, haystack@, case_sensitive, max_typos as int),
        r is Some ==> forall|p: int, q: int|
            0 <= p < q < final(positions)@.len() ==> #[trigger] final(positions)@[p] < #[trigger] final(positions)@[q],
{
    proof {
        if max_typos > needle@.len() {
            lemma_typo_layers_saturate(needle@, haystack@, case_sensitive, max_typos as int);
        }
        lemma_typo_positions_rise(needle@, haystack@, case_sensitive, max_typos as int);
    }
    let ghost asked: int = max_typos as int;
    let max_typos = if max_typos <= needle.len() {
        max_typos
    } else {
        needle.len()
    };
    let n = needle.len();
    let m = haystack.len();
    let ghost nd = needle@;
    let ghost hs = haystack@;
    // all_d[i][t][j], all_m[i][t][j]
    let mut all_d: Vec<Vec<Vec<i64>>> = Vec::new();
    let mut all_m: Vec<Vec<Vec<i64>>> = Vec::new();
    let mut i: usize = 0;
    while i < n
        invariant
            n == nd.len(),
            m == hs.len(),
            nd == needle@,
            hs == haystack@,
            0 < n <= TYPO_MAX_NEEDLE_LEN,
            0 < m <= MATCH_MAX_LEN,
            max_typos <= n,
            i <= n,
            lower_needle@.len() == n,
            lower_haystack@.len() == m,
            forall|k: int| 0 <= k < n ==> #[trigger] lower_needle@[k] == spec_ascii_lower(nd[k]),
            forall|k: int| 0 <= k < m ==> #[trigger] lower_haystack@[k] == spec_ascii_lower(hs[k]),
            match_bonus@.len() == m,
            forall|j: int| 0 <= j < m ==> #[trigger] match_bonus@[j] == spec_bonus_at(hs, j),
            all_d@.len() == i,
            all_m@.len() == i,
            forall|a: int| 0 <= a < i ==> (#[trigger] all_d@[a])@.len() == max_typos + 1,
            forall|a: int| 0 <= a < i ==> (#[trigger] all_m@[a])@.len() == max_typos + 1,
            forall|a: int, q: int| 0 <= a < i && 0 <= q <= max_typos ==> (#[trigger] all_d@[a]@[q])@.len() == m,
            forall|a: int, q: int| 0 <= a < i && 0 <= q <= max_typos ==> (#[trigger] all_m@[a]@[q])@.len() == m,
            forall|a: int, q: int, j: int| 0 <= a < i && 0 <= q <= max_typos && 0 <= j < m ==> #[trigger] all_d@[a]@[q]@[j]
                == fzy_dt(nd, hs, case_sensitive, q, a, j),
            forall|a: int, q: int, j: int| 0 <= a < i && 0 <= q <= max_typos && 0 <= j < m ==> #[trigger] all_m@[a]@[q]@[j]
                == fzy_mt(nd, hs, case_sensitive, q, a, j),
        decreases n - i,
    {
        let empty_d: Vec<Vec<i64>> = Vec::new();
        let empty_m: Vec<Vec<i64>> = Vec::new();
        let (dr, mr) = if i == 0 {
            fzy_typo_row(needle, haystack, lower_needle, lower_haystack, match_bonus, case_sensitive, max_typos, i, &empty_d, &empty_m)
        } else {
            fzy_typo_row(needle, haystack, lower_needle, lower_haystack, match_bonus, case_sensitive, max_typos, i, &all_d[i - 1], &all_m[i - 1])
        };
        all_d.push(dr);
        all_m.push(mr);
        i += 1;
    }

    // Best score and the first typo layer that reaches it
    let mut best: i64 = SCORE_MIN;
    let mut best_t: usize = 0;
    let mut t: usize = 0;
    while t <= max_typos
        invariant
            n == nd.len(),
            m == hs.len(),
            0 < n <= TYPO_MAX_NEEDLE_LEN,
            0 < m,
            max_typos <= n,
            t <= max_typos + 1,
            best_t <= max_typos,
            all_m@.len() == n,
            forall|a: int| 0 <= a < n ==> (#[trigger] all_m@[a])@.len() == max_typos + 1,
            forall|a: int, q: int| 0 <= a < n && 0 <= q <= max_typos ==> (#[trigger] all_m@[a]@[q])@.len() == m,
            forall|a: int, q: int, j: int| 0 <= a < n && 0 <= q <= max_typos && 0 <= j < m ==> #[trigger] all_m@[a]@[q]@[j]
                == fzy_mt(nd, hs, case_sensitive, q, a, j),
            best == fzy_best_upto(nd, hs, case_sensitive, t - 1),
            best_t == fzy_best_t(nd, hs, case_sensitive, t - 1),
        decreases max_typos + 1 - t,
    {
        proof {
            lemma_best_bounds(nd, hs, case_sensitive, t as int);
        }
        let s = all_m[n - 1][t][m - 1];
        if s > best {
            best = s;
            best_t = t;
        }
        t += 1;
    }
    if best == SCORE_MIN {
        return None;
    }

    // Backtrace
    positions.clear();
    let mut rev: Vec<usize> = Vec::new();
    let mut cur_t: usize = best_t;
    let mut j: usize = m - 1;
    let mut ii: usize = n;
    while ii > 0
        invariant
            fzy_typo_trace(nd, hs, case_sensitive, ii as int, cur_t as int, j as int, rev@) == fzy_typo_trace(
                nd,
                hs,
                case_sensitive,
                n as int,
                fzy_best_t(nd, hs, case_sensitive, max_typos as int),
                m - 1,
                Seq::empty(),
            ),
            forall|a: int, q: int, j: int| 0 <= a < n && 0 <= q <= max_typos && 0 <= j < m ==> #[trigger] all_d@[a]@[q]@[j]
                == fzy_dt(nd, hs, case_sensitive, q, a, j),
            n == nd.len(),
            m == hs.len(),
            0 < n <= TYPO_MAX_NEEDLE_LEN,
            0 < m <= MATCH_MAX_LEN,
            max_typos <= n,
            ii <= n,
            j < m,
            cur_t <= max_typos,
            rev@.len() <= n - ii,
            forall|k: int| 0 <= k < rev@.len() ==> #[trigger] rev@[k] < m,
            all_d@.len() == n,
            all_m@.len() == n,
            forall|a: int| 0 <= a < n ==> (#[trigger] all_d@[a])@.len() == max_typos + 1,
            forall|a: int| 0 <= a < n ==> (#[trigger] all_m@[a])@.len() == max_typos + 1,
            forall|a: int, q: int| 0 <= a < n && 0 <= q <= max_typos ==> (#[trigger] all_d@[a]@[q])@.len() == m,
            forall|a: int, q: int| 0 <= a < n && 0 <= q <= max_typos ==> (#[trigger] all_m@[a]@[q])@.len() == m,
            forall|a: int, q: int, j: int| 0 <= a < n && 0 <= q <= max_typos && 0 <= j < m ==> #[trigger] all_m@[a]@[q]@[j]
                == fzy_mt(nd, hs, case_sensitive, q, a, j),
        decreases ii,
    {
        let i = ii - 1;
        let ghost rev_before = rev@.len();
        let ghost rev0 = rev@;
        let ghost t0 = cur_t;
        let ghost j0 = j;
        loop
            invariant_except_break
                rev@.len() == rev_before,
                rev@ == rev0,
                cur_t == t0,
                fzy_typo_step(nd, hs, case_sensitive, i as int, t0 as int, j0 as int) == fzy_typo_step(
                    nd,
                    hs,
                    case_sensitive,
                    i as int,
                    t0 as int,
                    j as int,
                ),
            invariant
                forall|a: int, q: int, j: int| 0 <= a < n && 0 <= q <= max_typos && 0 <= j < m ==> #[trigger] all_d@[a]@[q]@[j]
                    == fzy_dt(nd, hs, case_sensitive, q, a, j),
                j0 < m,
                n == nd.len(),
                m == hs.len(),
                0 < n <= TYPO_MAX_NEEDLE_LEN,
                0 < m <= MATCH_MAX_LEN,
                max_typos <= n,
                i < n,
                ii == i + 1,
                j < m,
                cur_t <= max_typos,
                rev_before <= n - ii,
                forall|k: int| 0 <= k < rev@.len() ==> #[trigger] rev@[k] < m,
                all_d@.len() == n,
                all_m@.len() == n,
                forall|a: int| 0 <= a < n ==> (#[trigger] all_d@[a])@.len() == max_typos + 1,
                forall|a: int| 0 <= a < n ==> (#[trigger] all_m@[a])@.len() == max_typos + 1,
                forall|a: int, q: int| 0 <= a < n && 0 <= q <= max_typos ==> (#[trigger] all_d@[a]@[q])@.len() == m,
                forall|a: int, q: int| 0 <= a < n && 0 <= q <= max_typos ==> (#[trigger] all_m@[a]@[q])@.len() == m,
                forall|a: int, q: int, j: int| 0 <= a < n && 0 <= q <= max_typos && 0 <= j < m ==> #[trigger] all_m@[a]@[q]@[j]
                    == fzy_mt(nd, hs, case_sensitive, q, a, j),
            ensures
                rev@.len() <= rev_before + 1,
                forall|k: int| 0 <= k < rev@.len() ==> #[trigger] rev@[k] < m,
                j < m,
                cur_t <= max_typos,
                fzy_typo_trace(nd, hs, case_sensitive, i as int, cur_t as int, j as int, rev@) == fzy_typo_trace(
                    nd,
                    hs,
                    case_sensitive,
                    ii as int,
                    t0 as int,
                    j0 as int,
                    rev0,
                ),
            decreases j,
        {
            let cur_m = all_m[i][cur_t][j];
            if cur_t > 0 {
                proof {
                    if i > 0 {
                        lemma_fzy_typo_bounds(nd, hs, case_sensitive, cur_t - 1, i - 1, j as int);
                    }
                }
                let del_from: i64 = if i == 0 {
                    -(j as i64) + SCORE_TYPO
                } else {
                    let pv = all_m[i - 1][cur_t - 1][j];
                    if pv == SCORE_MIN {
                        SCORE_MIN
                    } else {
                        pv + SCORE_TYPO
                    }
                };
                if del_from != SCORE_MIN && cur_m == del_from {
                    cur_t -= 1;
                    break;
                }
            }
            let d_val = all_d[i][cur_t][j];
            if d_val != SCORE_MIN && d_val == cur_m {
                rev.push(j);
                j = if j > 0 { j - 1 } else { 0 };
                break;
            }
            if j == 0 {
                break;
            }
            j -= 1;
        }
        ii -= 1;
    }
    // `rev` holds positions in decreasing needle order
    let mut k: usize = rev.len();
    while k > 0
        invariant
            k <= rev@.len(),
            rev@.len() <= n,
            positions@.len() == rev@.len() - k,
            forall|q: int| 0 <= q < rev@.len() ==> #[trigger] rev@[q] < m,
            forall|q: int| 0 <= q < positions@.len() ==> #[trigger] positions@[q] < m,
            forall|q: int| 0 <= q < positions@.len() ==> #[trigger] positions@[q] == rev@[rev@.len() - 1 - q],
        decreases k,
    {
        k -= 1;
        positions.push(rev[k]);
    }
    proof {
        assert(positions@ =~= rev@.reverse());
        let sp = spec_fzy_typo_positions(needle@, haystack@, case_sensitive, asked);
        assert(positions@ == sp);
        assert forall|p: int, q: int| 0 <= p < q < positions@.len() implies #[trigger] positions@[p]
            < #[trigger] positions@[q] by {
            assert(sp[p] < sp[q]);
        }
    }
    Some(best)
}

// ---------------------------------------------------------------------------
// Score conversion
// ---------------------------------------------------------------------------

/// The ×200 internal score scaled to the ×1000 convention, saturating; the
/// two sentinels map to `i64::MAX / 2` and `i64::MIN / 2`.
pub open spec fn spec_internal_to_skim_score(score: i64) -> i64 {
    if score == SCORE_MAX {
        SCORE_MAX
    } else if score == SCORE_MIN {
        SCORE_MIN
    } else if score * SCORE_TO_SKIM > i64::MAX {
        i64::MAX
    } else if score * SCORE_TO_SKIM < i64::MIN {
        i64::MIN
    } else {
        (score * SCORE_TO_SKIM) as i64
    }
}

pub fn internal_to_skim_score(score: i64) -> (r: ScoreType)
    ensures
        r == spec_internal_to_skim_score(score),
{
    if score == SCORE_MAX {
        SCORE_MAX
    } else if score == SCORE_MIN {
        SCORE_MIN
    } else if score > i64::MAX / SCORE_TO_SKIM {
        i64::MAX
    } else if score < i64::MIN / SCORE_TO_SKIM {
        i64::MIN
    } else {
        score * SCORE_TO_SKIM
    }
}

// ---------------------------------------------------------------------------
// Public matcher
// ---------------------------------------------------------------------------

/// Case handling of the fzy matcher
#[derive(Eq, PartialEq, Debug, Copy, Clone, Structural)]
pub enum FzyCase {
    Respect,
    Ignore,
    Smart,
}

/// Fuzzy matcher using the fzy algorithm, with optional typo tolerance.
#[derive(Debug)]
pub struct FzyMatcher {
    case: FzyCase,
    use_cache: bool,
    max_typos: Option<usize>,
}

impl Default for FzyMatcher {
    fn default() -> (r: Self)
        ensures
            r.spec_case() == FzyCase::Ignore,
            r.spec_max_typos() is None,
    {
        FzyMatcher { case: FzyCase::Ignore, use_cache: true, max_typos: None }
    }
}

/// The pattern holds a character with the Unicode `Uppercase` property.
pub open spec fn spec_contains_upper(s: Seq<char>) -> bool {
    exists|k: int| 0 <= k < s.len() && unicode_is_uppercase(#[trigger] s[k])
}

pub fn contains_upper_chars(s: &[char]) -> (r: bool)
    ensures
        r == spec_contains_upper(s@),
{
    let mut k: usize = 0;
    while k < s.len()
        invariant
            k <= s.len(),
            forall|q: int| 0 <= q < k ==> !unicode_is_uppercase(#[trigger] s@[q]),
        decreases s.len() - k,
    {
        if char_is_uppercase(s[k]) {
            return true;
        }
        k += 1;
    }
    false
}

pub open spec fn spec_case_sensitive(case: FzyCase, pattern: Seq<char>) -> bool {
    match case {
        FzyCase::Respect => true,
        FzyCase::Ignore => false,
        FzyCase::Smart => spec_contains_upper(pattern),
    }
}

fn lower_all(s: &[char]) -> (r: Vec<char>)
    ensures
        r@.len() == s@.len(),
        forall|k: int| 0 <= k < s@.len() ==> #[trigger] r@[k] == spec_ascii_lower(s@[k]),
{
    let mut v: Vec<char> = Vec::new();
    let mut k: usize = 0;
    while k < s.len()
        invariant
            k <= s.len(),
            v@.len() == k,
            forall|q: int| 0 <= q < k ==> #[trigger] v@[q] == spec_ascii_lower(s@[q]),
        decreases s.len() - k,
    {
        v.push(ascii_lower(s[k]));
        k += 1;
    }
    v
}

/// The typo-tolerant answer once the exact path has failed: `None` unless
/// typos are allowed, the needle is non-empty and at most `TYPO_MAX_NEEDLE_LEN`
/// long, the haystack is non-empty and at most `MATCH_MAX_LEN` long, the needle is at most
/// `max_t` longer than the haystack and the pre-filter passes; otherwise the
/// typo DP's score over the layers `0..=min(max_t, needle length)`.
pub open spec fn spec_fzy_typo_path(choice: Seq<char>, pattern: Seq<char>, cs: bool, max_t: int) -> Option<i64> {
    let n = pattern.len();
    let m = choice.len();
    if max_t == 0 || n == 0 || m == 0 || m > MATCH_MAX_LEN || n > m + max_t || n > TYPO_MAX_NEEDLE_LEN {
        None
    } else if !spec_can_match_with_typos(choice, pattern, cs, max_t) {
        None
    } else {
        match spec_fzy_typo_score(pattern, choice, cs, if max_t <= n { max_t } else { n as int }) {
            Some(s) => Some(spec_internal_to_skim_score(s)),
            None => None,
        }
    }
}

/// The matcher's answer, the same for `fuzzy_indices` and `fuzzy_match`.
pub open spec fn spec_fzy_matcher_score(
    case: FzyCase,
    max_typos: Option<usize>,
    choice: Seq<char>,
    pattern: Seq<char>,
) -> Option<i64> {
    let cs = spec_case_sensitive(case, pattern);
    let exact = if is_subsequence(choice, pattern, cs) {
        match spec_fzy_score(pattern, choice, cs) {
            Some(s) => Some(spec_internal_to_skim_score(s)),
            None => None,
        }
    } else {
        None
    };
    match max_typos {
        None => exact,
        Some(t) => if exact is Some {
            exact
        } else {
            spec_fzy_typo_path(choice, pattern, cs, t as int)
        },
    }
}

/// The positions the matcher reports with its score: those of the exact DP
/// when it matches, else those of the typo DP (over the layers
/// `0..=min(max_t, needle length)`), else none.
pub open spec fn spec_fzy_matcher_indices(
    case: FzyCase,
    max_typos: Option<usize>,
    choice: Seq<char>,
    pattern: Seq<char>,
) -> Seq<usize> {
    let cs = spec_case_sensitive(case, pattern);
    let exact_ok = is_subsequence(choice, pattern, cs) && spec_fzy_score(pattern, choice, cs) is Some;
    if exact_ok {
        spec_fzy_positions(pattern, choice, cs)
    } else {
        match max_typos {
            Some(t) => spec_fzy_typo_positions(
                pattern,
                choice,
                cs,
                if t <= pattern.len() {
                    t as int
                } else {
                    pattern.len() as int
                },
            ),
            None => Seq::empty(),
        }
    }
}

impl FzyMatcher {
    pub closed spec fn spec_case(&self) -> FzyCase {
        self.case
    }

    pub closed spec fn spec_max_typos(&self) -> Option<usize> {
        self.max_typos
    }

    pub closed spec fn spec_use_cache(&self) -> bool {
        self.use_cache
    }

    /// Sets the matcher to ignore case when matching.
    pub fn ignore_case(self) -> (r: Self)
        ensures
            r.spec_case() == FzyCase::Ignore,
            r.spec_max_typos() == self.spec_max_typos(),
            r.spec_use_cache() == self.spec_use_cache(),
    {
        FzyMatcher { case: FzyCase::Ignore, ..self }
    }

    /// Sets the matcher to use smart case.
    pub fn smart_case(self) -> (r: Self)
        ensures
            r.spec_case() == FzyCase::Smart,
            r.spec_max_typos() == self.spec_max_typos(),
            r.spec_use_cache() == self.spec_use_cache(),
    {
        FzyMatcher { case: FzyCase::Smart, ..self }
    }

    /// Sets the matcher to respect case exactly.
    pub fn respect_case(self) -> (r: Self)
        ensures
            r.spec_case() == FzyCase::Respect,
            r.spec_max_typos() == self.spec_max_typos(),
            r.spec_use_cache() == self.spec_use_cache(),
    {
        FzyMatcher { case: FzyCase::Respect, ..self }
    }

    /// Enables or disables buffer reuse between calls.
    pub fn use_cache(self, use_cache: bool) -> (r: Self)
        ensures
            r.spec_case() == self.spec_case(),
            r.spec_max_typos() == self.spec_max_typos(),
            r.spec_use_cache() == use_cache,
    {
        FzyMatcher { use_cache, ..self }
    }

    /// Sets the maximum number of typos allowed during matching.
    pub fn max_typos(self, max_typos: Option<usize>) -> (r: Self)
        ensures
            r.spec_case() == self.spec_case(),
            r.spec_max_typos() == max_typos,
            r.spec_use_cache() == self.spec_use_cache(),
    {
        FzyMatcher { max_typos, ..self }
    }

    fn is_case_sensitive(&self, pattern: &[char]) -> (r: bool)
        ensures
            r == spec_case_sensitive(self.case, pattern@),
    {
        match self.case {
            FzyCase::Respect => true,
            FzyCase::Ignore => false,
            FzyCase::Smart => contains_upper_chars(pattern),
        }
    }

    fn typo_path(&self, choice: &[char], pattern: &[char], cs: bool, max_t: usize, positions: &mut Vec<IndexType>, with_positions: bool) -> (r: Option<i64>)
        ensures
            r == spec_fzy_typo_path(choice@, pattern@, cs, max_t as int),
            with_positions && r is Some ==> final(positions)@.len() <= pattern@.len() && forall|k: int|
                0 <= k < final(positions)@.len() ==> #[trigger] final(positions)@[k] < choice@.len(),
            with_positions && r is Some ==> final(positions)@ == spec_fzy_typo_positions(
                pattern@,
                choice@,
                cs,
                if max_t <= pattern@.len() {
                    max_t as int
                } else {
                    pattern@.len() as int
                },
            ),
    {
        let n = pattern.len();
        let m = choice.len();
        if max_t == 0 || n == 0 || m == 0 || m > MATCH_MAX_LEN || n as u128 > m as u128 + max_t as u128 || n > TYPO_MAX_NEEDLE_LEN {
            return None;
        }
        let lower_pattern = lower_all(pattern);
        if !can_match_with_typos(choice, pattern, lower_pattern.as_slice(), cs, max_t) {
            return None;
        }
        let lower_choice = lower_all(choice);
        let match_bonus = precompute_bonus(choice);
        let t_eff = if max_t <= n { max_t } else { n };
        let s = if with_positions {
            fzy_score_typos_full(pattern, choice, lower_pattern.as_slice(), lower_choice.as_slice(), match_bonus.as_slice(), cs, t_eff, positions)
        } else {
            fzy_score_typos_rolling(pattern, choice, lower_pattern.as_slice(), lower_choice.as_slice(), match_bonus.as_slice(), cs, t_eff)
        };
        match s {
            Some(v) => Some(internal_to_skim_score(v)),
            None => None,
        }
    }

    fn run(&self, choice: &str, pattern: &str, with_positions: bool) -> (r: Option<(ScoreType, MatchIndices)>)
        ensures
            match r {
                Some((s, v)) => spec_fzy_matcher_score(self.case, self.max_typos, choice@, pattern@) == Some(s)
                    && (with_positions ==> v@.len() <= pattern@.len() && forall|k: int| 0 <= k < v@.len() ==> #[trigger] v@[k] < choice@.len())
                    && (with_positions ==> v@ == spec_fzy_matcher_indices(self.case, self.max_typos, choice@, pattern@)),
                None => spec_fzy_matcher_score(self.case, self.max_typos, choice@, pattern@) is None,
            },
    {
        let choice_chars = str_to_chars(choice);
        let pattern_chars = str_to_chars(pattern);
        let cs = self.is_case_sensitive(pattern_chars.as_slice());
        let mut positions: Vec<IndexType> = Vec::new();
        let exact = match cheap_matches(choice_chars.as_slice(), pattern_chars.as_slice(), cs) {
            Some(_) => {
                let s = if with_positions {
                    fzy_score(pattern_chars.as_slice(), choice_chars.as_slice(), cs, Some(&mut positions))
                } else {
                    fzy_score(pattern_chars.as_slice(), choice_chars.as_slice(), cs, None)
                };
                match s {
                    Some(v) => Some(internal_to_skim_score(v)),
                    None => None,
                }
            },
            None => None,
        };
        match exact {
            Some(s) => {
                return Some((s, positions));
            },
            None => {},
        }
        match self.max_typos {
            None => None,
            Some(max_t) => {
                let mut typo_positions: Vec<IndexType> = Vec::new();
                match self.typo_path(choice_chars.as_slice(), pattern_chars.as_slice(), cs, max_t, &mut typo_positions, with_positions) {
                    Some(s) => Some((s, typo_positions)),
                    None => None,
                }
            },
        }
    }
}

impl FuzzyMatcher for FzyMatcher {
    open spec fn spec_fuzzy_score(&self, choice: Seq<char>, pattern: Seq<char>) -> Option<i64> {
        spec_fzy_matcher_score(self.spec_case(), self.spec_max_typos(), choice, pattern)
    }

    open spec fn spec_fuzzy_indices(&self, choice: Seq<char>, pattern: Seq<char>) -> Seq<usize> {
        spec_fzy_matcher_indices(self.spec_case(), self.spec_max_typos(), choice, pattern)
    }

    fn fuzzy_indices(&self, choice: &str, pattern: &str) -> (r: Option<(ScoreType, MatchIndices)>) {
        self.run(choice, pattern, true)
    }

    open spec fn spec_fuzzy_match(&self, choice: Seq<char>, pattern: Seq<char>) -> Option<i64> {
        spec_fzy_matcher_score(self.spec_case(), self.spec_max_typos(), choice, pattern)
    }

    fn fuzzy_match(&self, choice: &str, pattern: &str) -> (r: Option<ScoreType>)
        ensures
            r == spec_fzy_matcher_score(self.spec_case(), self.spec_max_typos(), choice@, pattern@),
    {
        match self.run(choice, pattern, false) {
            Some((s, _)) => Some(s),
            None => None,
        }
    }
}

/// Fuzzy match `choice` against `pattern` using the fzy algorithm, returning
/// the score and matched character indices.
pub fn fuzzy_indices(choice: &str, pattern: &str) -> (r: Option<(ScoreType, MatchIndices)>)
    ensures
        match r {
            Some((s, v)) => spec_fzy_matcher_score(FzyCase::Ignore, None, choice@, pattern@) == Some(s)
                && v@ == spec_fzy_matcher_indices(FzyCase::Ignore, None, choice@, pattern@),
            None => spec_fzy_matcher_score(FzyCase::Ignore, None, choice@, pattern@) is None,
        },
{
    FzyMatcher::default().ignore_case().fuzzy_indices(choice, pattern)
}

/// Fuzzy match `choice` against `pattern` using the fzy algorithm, returning
/// only the score.
pub fn fuzzy_match(choice: &str, pattern: &str) -> (r: Option<ScoreType>)
    ensures
        r == spec_fzy_matcher_score(FzyCase::Ignore, None, choice@, pattern@),
{
    FzyMatcher::default().ignore_case().fuzzy_match(choice, pattern)
}

// ---------------------------------------------------------------------------
// The reported positions place the pattern
// ---------------------------------------------------------------------------

/// A cell value that some placement of the needle prefix reaches.
pub open spec fn fzy_good(x: int, j: int) -> bool {
    x >= -2 * (j + 1)
}

/// A cell value that only the sentinel reaches.
pub open spec fn fzy_bad(x: int, i: int) -> bool {
    x <= SCORE_MIN + 200 * (i + 1)
}

/// Every cell of the position-recovering DP is either reached by a placement
/// or stays near the sentinel.
proof fn lemma_fzy_dichotomy(needle: Seq<char>, haystack: Seq<char>, cs: bool, i: int, j: int)
    requires
        0 <= i < needle.len(),
        0 <= j < haystack.len(),
    ensures
        fzy_good(fzy_d(needle, haystack, cs, i, j), j) || fzy_bad(fzy_d(needle, haystack, cs, i, j), i),
        fzy_good(fzy_m(needle, haystack, cs, i, j), j) || fzy_bad(fzy_m(needle, haystack, cs, i, j), i),
    decreases i, j,
{
    if j > 0 {
        lemma_fzy_dichotomy(needle, haystack, cs, i, j - 1);
    }
    if i > 0 && j > 0 {
        lemma_fzy_dichotomy(needle, haystack, cs, i - 1, j - 1);
    }
    lemma_bonus_nonneg(haystack, j);
    assert(-2 <= spec_gap(needle.len() as int, i) <= -1);
    let d = fzy_d(needle, haystack, cs, i, j);
    let left = (if j == 0 { SCORE_MIN as int } else { fzy_m(needle, haystack, cs, i, j - 1) })
        + spec_gap(needle.len() as int, i);
    assert(fzy_good(left, j) || fzy_bad(left, i));
    assert(fzy_good(d, j) || fzy_bad(d, i));
}

/// A value above the sentinel's reach is reached by a placement.
proof fn lemma_fzy_good_of(needle: Seq<char>, haystack: Seq<char>, cs: bool, i: int, j: int)
    requires
        0 <= i < needle.len() <= MATCH_MAX_LEN,
        0 <= j < haystack.len() <= MATCH_MAX_LEN,
    ensures
        fzy_d(needle, haystack, cs, i, j) > SCORE_MIN + 200 * (i + 1) ==> fzy_good(
            fzy_d(needle, haystack, cs, i, j),
            j,
        ),
        fzy_m(needle, haystack, cs, i, j) > SCORE_MIN + 200 * (i + 1) ==> fzy_good(
            fzy_m(needle, haystack, cs, i, j),
            j,
        ),
        fzy_good(fzy_d(needle, haystack, cs, i, j), j) ==> fzy_d(needle, haystack, cs, i, j) != SCORE_MIN,
{
    lemma_fzy_dichotomy(needle, haystack, cs, i, j);
}

/// Along a placement of the needle, each placed character's cell is reached,
/// and so is every later cell of its row.
proof fn lemma_fzy_embedding_good(needle: Seq<char>, haystack: Seq<char>, cs: bool, e: Seq<usize>, i: int, j: int)
    requires
        is_embedding(haystack, needle, e, cs),
        0 <= i < needle.len() <= MATCH_MAX_LEN,
        e[i] <= j < haystack.len() <= MATCH_MAX_LEN,
    ensures
        fzy_good(fzy_d(needle, haystack, cs, i, e[i] as int), e[i] as int),
        fzy_good(fzy_m(needle, haystack, cs, i, j), j),
    decreases i, j,
{
    let c = e[i] as int;
    assert(c < haystack.len() && spec_char_equal(haystack[c], needle[i], cs));
    crate::fuzzy_matcher::util::lemma_char_equal_symmetric(haystack[c], needle[i], cs);
    assert(spec_is_match(needle, haystack, cs, i, c));
    lemma_bonus_nonneg(haystack, c);
    if i > 0 {
        assert(e[i - 1] < e[i]);
        lemma_fzy_embedding_good(needle, haystack, cs, e, i - 1, c - 1);
        lemma_fzy_dichotomy(needle, haystack, cs, i - 1, c - 1);
    }
    assert(fzy_good(fzy_d(needle, haystack, cs, i, c), c));
    if j > c {
        lemma_fzy_embedding_good(needle, haystack, cs, e, i, j - 1);
        lemma_fzy_dichotomy(needle, haystack, cs, i, j);
        lemma_bonus_nonneg(haystack, j);
    }
}

proof fn lemma_bonus_nonneg(haystack: Seq<char>, j: int)
    ensures
        0 <= spec_bonus_at(haystack, j) <= SCORE_MATCH_SLASH,
{
}

/// Scanning down from a reached cell, the backtrace finds a column whose
/// match cell is reached and gives the cell's score; after a consecutive
/// match, a reached match cell is taken at once.
proof fn lemma_fzy_trace_col_found(needle: Seq<char>, haystack: Seq<char>, cs: bool, i: int, j: int, mr: bool)
    requires
        0 <= i < needle.len() <= MATCH_MAX_LEN,
        0 <= j < haystack.len() <= MATCH_MAX_LEN,
        mr ==> fzy_good(fzy_d(needle, haystack, cs, i, j), j),
        !mr ==> fzy_good(fzy_m(needle, haystack, cs, i, j), j),
    ensures
        fzy_trace_col(needle, haystack, cs, i, j, mr) matches Some(c) && 0 <= c <= j && fzy_good(
            fzy_d(needle, haystack, cs, i, c),
            c,
        ) && (mr ==> c == j),
    decreases j,
{
    lemma_fzy_good_of(needle, haystack, cs, i, j);
    let d = fzy_d(needle, haystack, cs, i, j);
    let m = fzy_m(needle, haystack, cs, i, j);
    if mr {
    } else if d != SCORE_MIN && d == m {
    } else {
        // The cell's score comes from the gap to its left.
        assert(j > 0);
        lemma_fzy_good_of(needle, haystack, cs, i, j - 1);
        lemma_fzy_trace_col_found(needle, haystack, cs, i, j - 1, mr);
    }
}

/// The backtrace from a reached cell places needle rows `..ii` at increasing
/// columns up to `j`, each on an equal character, and keeps the rest of `pos`.
proof fn lemma_fzy_trace_places(
    needle: Seq<char>,
    haystack: Seq<char>,
    cs: bool,
    ii: int,
    j: int,
    mr: bool,
    pos: Seq<usize>,
)
    requires
        0 <= ii <= needle.len() <= MATCH_MAX_LEN,
        0 <= j < haystack.len() <= MATCH_MAX_LEN,
        pos.len() == needle.len(),
        ii > 0 && mr ==> fzy_good(fzy_d(needle, haystack, cs, ii - 1, j), j),
        ii > 0 && !mr ==> fzy_good(fzy_m(needle, haystack, cs, ii - 1, j), j),
    ensures
        ({
            let r = fzy_trace(needle, haystack, cs, ii, j, mr, pos);
            &&& r.len() == pos.len()
            &&& forall|k: int| ii <= k < pos.len() ==> r[k] == pos[k]
            &&& forall|k: int| 0 <= k < ii ==> #[trigger] r[k] <= j && spec_is_match(needle, haystack, cs, k, r[k] as int)
            &&& forall|k: int| 0 < k < ii ==> #[trigger] r[k - 1] < r[k]
        }),
    decreases ii,
{
    if ii > 0 {
        let i = ii - 1;
        lemma_fzy_trace_col_found(needle, haystack, cs, i, j, mr);
        let c = fzy_trace_col(needle, haystack, cs, i, j, mr)->Some_0;
        let d = fzy_d(needle, haystack, cs, i, c);
        lemma_fzy_good_of(needle, haystack, cs, i, c);
        assert(spec_is_match(needle, haystack, cs, i, c));
        let nj = if c > 0 { c - 1 } else { 0 };
        let nmr = i > 0 && c > 0 && fzy_m(needle, haystack, cs, i, c) == fzy_d(needle, haystack, cs, i - 1, c - 1)
            + SCORE_MATCH_CONSECUTIVE;
        let npos = pos.update(i, c as usize);
        if i > 0 {
            assert(c > 0);
            lemma_fzy_dichotomy(needle, haystack, cs, i - 1, c - 1);
            lemma_fzy_dichotomy(needle, haystack, cs, i, c);
            lemma_fzy_good_of(needle, haystack, cs, i - 1, c - 1);
            lemma_bonus_nonneg(haystack, c);
            if i - 1 == 0 {
                lemma_fzy_good_of(needle, haystack, cs, 0, c - 1);
            }
        }
        lemma_fzy_trace_places(needle, haystack, cs, i, nj, nmr, npos);
        let r = fzy_trace(needle, haystack, cs, ii, j, mr, pos);
        assert(r == fzy_trace(needle, haystack, cs, i, nj, nmr, npos));
        assert(r[i] == c);
        assert forall|k: int| 0 < k < ii implies #[trigger] r[k - 1] < r[k] by {
            if k == i {
                assert(r[k - 1] <= nj);
            }
        }
    }
}

/// When the pattern matches without typos, the positions reported with the
/// score place each pattern character, in order, on an equal character of
/// the choice.
pub proof fn lemma_fzy_positions_embed(needle: Seq<char>, haystack: Seq<char>, cs: bool)
    requires
        is_subsequence(haystack, needle, cs),
        spec_fzy_score(needle, haystack, cs) is Some,
    ensures
        is_embedding(haystack, needle, spec_fzy_positions(needle, haystack, cs), cs),
{
    let e = choose|v: Seq<usize>| is_embedding(haystack, needle, v, cs);
    let n = needle.len() as int;
    let m = haystack.len() as int;
    let p = spec_fzy_positions(needle, haystack, cs);
    if n == m {
        lemma_full_embedding_is_identity(haystack, needle, e, cs, 0);
        assert forall|k: int| 0 <= k < p.len() implies #[trigger] p[k] < haystack.len() && spec_char_equal(
            haystack[p[k] as int],
            needle[k],
            cs,
        ) by {
            lemma_full_embedding_is_identity(haystack, needle, e, cs, k);
        }
    } else {
        lemma_fzy_embedding_good(needle, haystack, cs, e, n - 1, m - 1);
        lemma_fzy_trace_places(needle, haystack, cs, n, m - 1, false, Seq::new(needle.len(), |k: int| 0usize));
        assert forall|k: int| 0 <= k < p.len() implies #[trigger] p[k] < haystack.len() && spec_char_equal(
            haystack[p[k] as int],
            needle[k],
            cs,
        ) by {
            assert(spec_is_match(needle, haystack, cs, k, p[k] as int));
            crate::fuzzy_matcher::util::lemma_char_equal_symmetric(needle[k], haystack[p[k] as int], cs);
        }
    }
}

/// A placement of a pattern as long as the choice puts character `k` at `k`.
proof fn lemma_full_embedding_is_identity(choice: Seq<char>, pattern: Seq<char>, e: Seq<usize>, cs: bool, k: int)
    requires
        is_embedding(choice, pattern, e, cs),
        pattern.len() == choice.len(),
        0 <= k < pattern.len(),
    ensures
        e[k] == k,
{
    lemma_embedding_at_least(choice, pattern, e, cs, k);
    lemma_embedding_at_most(choice, pattern, e, cs, k);
}

proof fn lemma_embedding_at_least(choice: Seq<char>, pattern: Seq<char>, e: Seq<usize>, cs: bool, k: int)
    requires
        is_embedding(choice, pattern, e, cs),
        0 <= k < pattern.len(),
    ensures
        e[k] >= k,
    decreases k,
{
    if k > 0 {
        lemma_embedding_at_least(choice, pattern, e, cs, k - 1);
        assert(e[k - 1] < e[k]);
    }
}

proof fn lemma_embedding_at_most(choice: Seq<char>, pattern: Seq<char>, e: Seq<usize>, cs: bool, k: int)
    requires
        is_embedding(choice, pattern, e, cs),
        0 <= k < pattern.len(),
    ensures
        e[k] <= choice.len() - (pattern.len() - k),
    decreases pattern.len() - k,
{
    if k < pattern.len() - 1 {
        lemma_embedding_at_most(choice, pattern, e, cs, k + 1);
        assert(e[(k + 1) - 1] < e[k + 1]);
    } else {
        assert(e[k] < choice.len());
    }
}

} // verus!
