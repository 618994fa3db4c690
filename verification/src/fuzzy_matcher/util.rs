//! Character comparison and classification shared by the fuzzy matchers.
use vstd::prelude::*;

use super::{FuzzyMatcher, IndexType, ScoreType};
use crate::text::{
    char_is_lowercase, char_is_numeric, char_is_uppercase, eq_ignore_ascii_case, eq_lowercase,
    is_ascii_char, spec_eq_ignore_ascii_case, spec_is_ascii_char, str_to_chars, string_push,
    unicode_is_lowercase, unicode_is_numeric, unicode_is_uppercase, unicode_lowercase,
};

verus! {

/// The Unicode fullwidth form of an ASCII character, folded to ASCII.
pub open spec fn spec_narrow_ascii_width(ch: char) -> char {
    if ch == '\u{3000}' {
        ' '
    } else if 0xFF01 <= (ch as u32) <= 0xFF5E {
        ((ch as u32) - 0xFEE0) as char
    } else {
        ch
    }
}

/// Two characters are equal after folding ASCII width and, unless
/// `case_sensitive`, case.
pub open spec fn spec_char_equal(a: char, b: char, case_sensitive: bool) -> bool {
    if a == b {
        true
    } else {
        let na = spec_narrow_ascii_width(a);
        let nb = spec_narrow_ascii_width(b);
        if na == nb {
            true
        } else if case_sensitive {
            false
        } else if spec_is_ascii_char(na) && spec_is_ascii_char(nb) {
            spec_eq_ignore_ascii_case(na, nb)
        } else {
            unicode_lowercase(na) == unicode_lowercase(nb)
        }
    }
}

/// `char_equal` is symmetric.
pub proof fn lemma_char_equal_symmetric(a: char, b: char, case_sensitive: bool)
    ensures
        spec_char_equal(a, b, case_sensitive) == spec_char_equal(b, a, case_sensitive),
{
}

/// `char_equal` is reflexive.
pub proof fn lemma_char_equal_reflexive(a: char, case_sensitive: bool)
    ensures
        spec_char_equal(a, a, case_sensitive),
{
}

/// A case-insensitive comparison accepts whatever a case-sensitive one accepts.
pub proof fn lemma_char_equal_case_monotone(a: char, b: char)
    ensures
        spec_char_equal(a, b, true) ==> spec_char_equal(a, b, false),
{
}

/// Convert the Unicode fullwidth form of an ASCII character to ASCII.
pub fn narrow_ascii_width(ch: char) -> (r: char)
    ensures
        r == spec_narrow_ascii_width(ch),
{
    let c = ch as u32;
    if ch == '\u{3000}' {
        ' '
    } else if 0xFF01 <= c && c <= 0xFF5E {
        let b: u8 = (c - 0xFEE0) as u8;
        b as char
    } else {
        ch
    }
}

/// Given two characters, check if they are equal after folding ASCII width and,
/// when requested, case.
pub fn char_equal(a: char, b: char, case_sensitive: bool) -> (r: bool)
    ensures
        r == spec_char_equal(a, b, case_sensitive),
{
    if a == b {
        return true;
    }
    let a = narrow_ascii_width(a);
    let b = narrow_ascii_width(b);
    if a == b {
        return true;
    }
    if case_sensitive {
        return false;
    }
    if is_ascii_char(a) && is_ascii_char(b) {
        return eq_ignore_ascii_case(a, b);
    }
    eq_lowercase(a, b)
}

// ---------------------------------------------------------------------------
// Subsequence matching
// ---------------------------------------------------------------------------

/// `v` places each pattern character on an equal choice character, in
/// strictly increasing order.
pub open spec fn is_embedding(choice: Seq<char>, pattern: Seq<char>, v: Seq<usize>, case_sensitive: bool) -> bool {
    &&& v.len() == pattern.len()
    &&& forall|k: int| 0 <= k < v.len() ==> #[trigger] v[k] < choice.len() && spec_char_equal(
        choice[v[k] as int],
        pattern[k],
        case_sensitive,
    )
    &&& forall|k: int| 0 < k < v.len() ==> #[trigger] v[k - 1] < v[k]
}

/// First choice position at which pattern character `k` may be placed after
/// the first `k` were placed at `v`.
pub open spec fn next_start(v: Seq<usize>, k: int) -> int {
    if k == 0 {
        0
    } else {
        v[k - 1] + 1
    }
}

/// `v` is the leftmost (greedy) embedding of the first `v.len()` pattern characters.
pub open spec fn is_greedy_prefix(choice: Seq<char>, pattern: Seq<char>, v: Seq<usize>, case_sensitive: bool) -> bool {
    &&& v.len() <= pattern.len()
    &&& forall|k: int| 0 <= k < v.len() ==> #[trigger] v[k] < choice.len() && spec_char_equal(
        choice[v[k] as int],
        pattern[k],
        case_sensitive,
    )
    &&& forall|k: int| 0 < k < v.len() ==> #[trigger] v[k - 1] < v[k]
    &&& forall|k: int, j: int|
        0 <= k < v.len() && next_start(v, k) <= j < v[k] ==> !spec_char_equal(
            #[trigger] choice[j],
            #[trigger] pattern[k],
            case_sensitive,
        )
}

/// The pattern is a subsequence of the choice.
pub open spec fn is_subsequence(choice: Seq<char>, pattern: Seq<char>, case_sensitive: bool) -> bool {
    exists|v: Seq<usize>| is_embedding(choice, pattern, v, case_sensitive)
}

proof fn lemma_greedy_le_embedding(
    choice: Seq<char>,
    pattern: Seq<char>,
    g: Seq<usize>,
    e: Seq<usize>,
    cs: bool,
    k: int,
)
    requires
        is_greedy_prefix(choice, pattern, g, cs),
        is_embedding(choice, pattern, e, cs),
        0 <= k < g.len(),
    ensures
        g[k] <= e[k],
    decreases k,
{
    if k > 0 {
        lemma_greedy_le_embedding(choice, pattern, g, e, cs, k - 1);
        assert(e[k - 1] < e[k]);
    }
    if e[k] < g[k] {
        assert(spec_char_equal(choice[e[k] as int], pattern[k], cs));
        assert(next_start(g, k) <= e[k]);
    }
}

/// When the greedy scan places `g.len()` characters and then finds no place
/// for the next one before the end, no embedding exists.
proof fn lemma_greedy_failure(choice: Seq<char>, pattern: Seq<char>, g: Seq<usize>, cs: bool)
    requires
        is_greedy_prefix(choice, pattern, g, cs),
        g.len() < pattern.len(),
        forall|j: int| next_start(g, g.len() as int) <= j < choice.len() ==> !spec_char_equal(
            #[trigger] choice[j],
            pattern[g.len() as int],
            cs,
        ),
    ensures
        !is_subsequence(choice, pattern, cs),
{
    if is_subsequence(choice, pattern, cs) {
        let e = choose|v: Seq<usize>| is_embedding(choice, pattern, v, cs);
        let k = g.len() as int;
        if k > 0 {
            lemma_greedy_le_embedding(choice, pattern, g, e, cs, k - 1);
            assert(e[k - 1] < e[k]);
        }
        assert(spec_char_equal(choice[e[k] as int], pattern[k], cs));
        assert(e[k] < choice.len());
    }
}

/// Greedy leftmost placement of `pattern` into `choice`; `None` when the
/// pattern is not a subsequence of the choice.
pub fn cheap_matches(choice: &[char], pattern: &[char], case_sensitive: bool) -> (r: Option<Vec<usize>>)
    ensures
        match r {
            Some(v) => is_greedy_prefix(choice@, pattern@, v@, case_sensitive) && v@.len()
                == pattern@.len() && is_embedding(choice@, pattern@, v@, case_sensitive),
            None => !is_subsequence(choice@, pattern@, case_sensitive),
        },
{
    let mut first_match_indices: Vec<usize> = Vec::new();
    let mut idx: usize = 0;
    let n = pattern.len();
    while idx < choice.len() && first_match_indices.len() < n
        invariant
            idx <= choice.len(),
            n == pattern@.len(),
            is_greedy_prefix(choice@, pattern@, first_match_indices@, case_sensitive),
            first_match_indices@.len() > 0 ==> first_match_indices@[first_match_indices@.len() - 1]
                < idx,
            first_match_indices@.len() < n ==> forall|j: int|
                next_start(first_match_indices@, first_match_indices@.len() as int) <= j < idx
                    ==> !spec_char_equal(
                    #[trigger] choice@[j],
                    pattern@[first_match_indices@.len() as int],
                    case_sensitive,
                ),
        decreases choice.len() - idx,
    {
        let pi = first_match_indices.len();
        if char_equal(choice[idx], pattern[pi], case_sensitive) {
            let ghost old_v = first_match_indices@;
            first_match_indices.push(idx);
            proof {
                let v = first_match_indices@;
                assert forall|k: int, j: int|
                    0 <= k < v.len() && next_start(v, k) <= j < v[k] implies !spec_char_equal(
                    #[trigger] choice@[j],
                    #[trigger] pattern@[k],
                    case_sensitive,
                ) by {
                    if k < old_v.len() {
                        assert(v[k] == old_v[k]);
                        assert(next_start(v, k) == next_start(old_v, k));
                    }
                }
            }
        }
        idx += 1;
    }
    if first_match_indices.len() >= n {
        Some(first_match_indices)
    } else {
        proof {
            lemma_greedy_failure(choice@, pattern@, first_match_indices@, case_sensitive);
        }
        None
    }
}

// ---------------------------------------------------------------------------
// Character classes
// ---------------------------------------------------------------------------

/// Category of a character for word-boundary scoring
#[derive(Debug, PartialEq, Eq, Structural, Clone, Copy)]
pub enum CharType {
    NonWord,
    Lower,
    Upper,
    Number,
}

pub open spec fn spec_char_type_of(ch: char) -> CharType {
    if unicode_is_lowercase(ch) {
        CharType::Lower
    } else if unicode_is_uppercase(ch) {
        CharType::Upper
    } else if unicode_is_numeric(ch) {
        CharType::Number
    } else {
        CharType::NonWord
    }
}

pub fn char_type_of(ch: char) -> (r: CharType)
    ensures
        r == spec_char_type_of(ch),
{
    if char_is_lowercase(ch) {
        CharType::Lower
    } else if char_is_uppercase(ch) {
        CharType::Upper
    } else if char_is_numeric(ch) {
        CharType::Number
    } else {
        CharType::NonWord
    }
}

/// Whether a character starts a word or continues one
#[derive(Debug, PartialEq, Eq, Structural, Clone, Copy)]
pub enum CharRole {
    Tail,
    Head,
}

/// A character is a word head after a lowercase or non-word character when it
/// is uppercase, or after a non-word character when it is lowercase.
pub open spec fn spec_char_role(prev: char, cur: char) -> CharRole {
    let p = spec_char_type_of(prev);
    let c = spec_char_type_of(cur);
    if ((p == CharType::Lower || p == CharType::NonWord) && c == CharType::Upper) || (p
        == CharType::NonWord && c == CharType::Lower) {
        CharRole::Head
    } else {
        CharRole::Tail
    }
}

pub fn char_role(prev: char, cur: char) -> (r: CharRole)
    ensures
        r == spec_char_role(prev, cur),
{
    let p = char_type_of(prev);
    let c = char_type_of(cur);
    match (p, c) {
        (CharType::Lower, CharType::Upper) | (CharType::NonWord, CharType::Upper) | (
            CharType::NonWord,
            CharType::Lower,
        ) => CharRole::Head,
        _ => CharRole::Tail,
    }
}

// ---------------------------------------------------------------------------
// Test helpers
// ---------------------------------------------------------------------------

/// `line` with each character whose position matches the next pending index
/// wrapped in brackets; `start` is the position of `line[0]`.
pub open spec fn spec_wrap(line: Seq<char>, indices: Seq<usize>, start: int) -> Seq<char>
    decreases line.len(),
{
    if line.len() == 0 {
        Seq::empty()
    } else if indices.len() > 0 && indices[0] == start {
        seq!['[', line[0], ']'] + spec_wrap(line.drop_first(), indices.drop_first(), start + 1)
    } else {
        seq![line[0]] + spec_wrap(line.drop_first(), indices, start + 1)
    }
}

/// Brackets the characters of `line` at the given (ascending) character indices.
pub fn wrap_matches(line: &str, indices: &[IndexType]) -> (r: String)
    ensures
        r@ == spec_wrap(line@, indices@, 0),
{
    let chars = str_to_chars(line);
    let mut ret = String::new();
    let mut idx: usize = 0;
    let mut p: usize = 0;
    assert(line@.skip(0) =~= line@);
    assert(indices@.skip(0) =~= indices@);
    assert(ret@ =~= Seq::<char>::empty());
    assert(ret@ + spec_wrap(line@, indices@, 0) =~= spec_wrap(line@, indices@, 0));
    while idx < chars.len()
        invariant
            chars@ == line@,
            idx <= chars.len(),
            p <= indices@.len(),
            ret@ + spec_wrap(line@.skip(idx as int), indices@.skip(p as int), idx as int) == spec_wrap(
                line@,
                indices@,
                0,
            ),
        decreases chars.len() - idx,
    {
        let ch = chars[idx];
        let ghost rest = line@.skip(idx as int);
        assert(rest.drop_first() =~= line@.skip(idx + 1));
        assert(rest[0] == ch);
        if p < indices.len() && indices[p] == idx {
            assert(indices@.skip(p as int).drop_first() =~= indices@.skip(p + 1));
            assert(spec_wrap(rest, indices@.skip(p as int), idx as int) == seq!['[', ch, ']'] + spec_wrap(
                line@.skip(idx + 1),
                indices@.skip(p + 1),
                idx + 1,
            ));
            let ghost before = ret@;
            string_push(&mut ret, '[');
            string_push(&mut ret, ch);
            string_push(&mut ret, ']');
            assert(ret@ =~= before + seq!['[', ch, ']']);
            p += 1;
        } else {
            assert(spec_wrap(rest, indices@.skip(p as int), idx as int) == seq![ch] + spec_wrap(
                line@.skip(idx + 1),
                indices@.skip(p as int),
                idx + 1,
            ));
            let ghost before = ret@;
            string_push(&mut ret, ch);
            assert(ret@ =~= before + seq![ch]);
        }
        idx += 1;
    }
    assert(line@.skip(idx as int) =~= Seq::<char>::empty());
    assert(ret@ + spec_wrap(Seq::<char>::empty(), indices@.skip(p as int), idx as int) =~= ret@);
    ret
}

/// `r` lists lines of `lines`, each line (by position) at most once, as
/// `src` says where each comes from, ordered by the non-increasing scores
/// `sc`, and lines of equal score in their input order.
pub open spec fn stable_score_order(lines: Seq<&'static str>, r: Seq<&'static str>, src: Seq<int>, sc: Seq<i64>) -> bool {
    &&& src.len() == r.len()
    &&& sc.len() == r.len()
    &&& forall|a: int| 0 <= a < r.len() ==> 0 <= #[trigger] src[a] < lines.len() && lines[src[a]] == r[a]
    &&& forall|a: int, b: int|
        0 <= a < b < r.len() ==> #[trigger] src[a] != #[trigger] src[b] && sc[a] >= sc[b] && (sc[a] == sc[b] ==> src[a]
            < src[b])
}

/// `r` holds exactly the lines on which `m.fuzzy_match` answers a score, as
/// `src` says where each comes from and `sc` gives the scores answered,
/// ordered by descending score, and lines of equal score in their input order.
pub open spec fn filtered_by_score<M: FuzzyMatcher + ?Sized>(
    m: &M,
    p: Seq<char>,
    lines: Seq<&'static str>,
    r: Seq<&'static str>,
    src: Seq<int>,
    sc: Seq<i64>,
) -> bool {
    &&& stable_score_order(lines, r, src, sc)
    &&& forall|a: int| 0 <= a < src.len() ==> m.spec_fuzzy_match(lines[#[trigger] src[a]]@, p) == Some(sc[a])
    &&& forall|q: int| 0 <= q < lines.len() && (#[trigger] m.spec_fuzzy_match(lines[q]@, p)) is Some ==> src.contains(q)
}

/// Keeps the lines that match `pattern`, ordered by descending score; lines
/// with equal scores keep their input order. Which lines match, and with
/// which score, is what `matcher.fuzzy_match` answers.
#[verifier::rlimit(60)]
pub fn filter_and_sort(matcher: &dyn FuzzyMatcher, pattern: &str, lines: &[&'static str]) -> (r: Vec<&'static str>)
    ensures
        r@.len() <= lines@.len(),
        forall|i: int| 0 <= i < r@.len() ==> lines@.contains(#[trigger] r@[i]),
        exists|src: Seq<int>, sc: Seq<i64>| #[trigger] filtered_by_score(matcher, pattern@, lines@, r@, src, sc),
{
    let mut scored: Vec<(ScoreType, &'static str)> = Vec::new();
    let ghost mut src: Seq<int> = Seq::empty();
    let mut i: usize = 0;
    while i < lines.len()
        invariant
            i <= lines.len(),
            scored@.len() <= i,
            src.len() == scored@.len(),
            forall|a: int| 0 <= a < scored@.len() ==> 0 <= #[trigger] src[a] < lines@.len() && lines@[src[a]]
                == scored@[a].1,
            forall|a: int, b: int| 0 <= a < b < scored@.len() ==> #[trigger] scored@[a].0 >= #[trigger] scored@[b].0,
            forall|a: int| 0 <= a < scored@.len() ==> #[trigger] src[a] < i,
            forall|a: int| 0 <= a < scored@.len() ==> matcher.spec_fuzzy_match(lines@[#[trigger] src[a]]@, pattern@) == Some(scored@[a].0),
            forall|q: int| 0 <= q < i && (#[trigger] matcher.spec_fuzzy_match(lines@[q]@, pattern@)) is Some ==> src.contains(q),
            forall|a: int, b: int|
                0 <= a < b < scored@.len() ==> #[trigger] src[a] != #[trigger] src[b] && (scored@[a].0 == scored@[b].0
                    ==> src[a] < src[b]),
        decreases lines.len() - i,
    {
        let s = lines[i];
        assert(s == lines@[i as int]);
        match matcher.fuzzy_match(s, pattern) {
            Some(score) => {
                // stable insertion: after every element with a score >= `score`
                let mut pos: usize = scored.len();
                while pos > 0 && scored[pos - 1].0 < score
                    invariant
                        pos <= scored@.len(),
                        forall|a: int| pos <= a < scored@.len() ==> #[trigger] scored@[a].0 < score,
                    decreases pos,
                {
                    pos -= 1;
                }
                let ghost old_s = scored@;
                let ghost old_src = src;
                scored.insert(pos, (score, s));
                proof {
                    src = old_src.insert(pos as int, i as int);
                    assert forall|a: int| 0 <= a < scored@.len() implies 0 <= #[trigger] src[a] < lines@.len()
                        && lines@[src[a]] == scored@[a].1 by {
                        if a < pos {
                            assert(scored@[a] == old_s[a] && src[a] == old_src[a]);
                        } else if a > pos {
                            assert(scored@[a] == old_s[a - 1] && src[a] == old_src[a - 1]);
                        }
                    }
                    assert forall|a: int, b: int| 0 <= a < b < scored@.len() implies #[trigger] scored@[a].0
                        >= #[trigger] scored@[b].0 by {
                        if a < pos && b < pos {
                            assert(scored@[a] == old_s[a] && scored@[b] == old_s[b]);
                        } else if a < pos && b == pos {
                            assert(scored@[a] == old_s[a]);
                            assert(old_s[a].0 >= old_s[pos - 1].0);
                        } else if a < pos && b > pos {
                            assert(scored@[a] == old_s[a] && scored@[b] == old_s[b - 1]);
                        } else if a == pos {
                            assert(scored@[b] == old_s[b - 1]);
                        } else {
                            assert(scored@[a] == old_s[a - 1] && scored@[b] == old_s[b - 1]);
                        }
                    }
                    assert forall|a: int| 0 <= a < scored@.len() implies #[trigger] src[a] < i + 1 by {
                        if a < pos {
                            assert(src[a] == old_src[a]);
                        } else if a > pos {
                            assert(src[a] == old_src[a - 1]);
                        }
                    }
                    assert forall|a: int| 0 <= a < scored@.len() implies matcher.spec_fuzzy_match(
                        lines@[#[trigger] src[a]]@,
                        pattern@,
                    ) == Some(scored@[a].0) by {
                        if a < pos {
                            assert(src[a] == old_src[a] && scored@[a] == old_s[a]);
                        } else if a > pos {
                            assert(src[a] == old_src[a - 1] && scored@[a] == old_s[a - 1]);
                        } else {
                            assert(src[a] == i && scored@[a].0 == score);
                        }
                    }
                    assert forall|q: int| 0 <= q < i + 1 && (#[trigger] matcher.spec_fuzzy_match(lines@[q]@, pattern@)) is Some
                        implies src.contains(q) by {
                        if q == i {
                            assert(src[pos as int] == i);
                        } else {
                            assert(old_src.contains(q));
                            let k = choose|k: int| 0 <= k < old_src.len() && old_src[k] == q;
                            if k < pos {
                                assert(src[k] == q);
                            } else {
                                assert(src[k + 1] == q);
                            }
                        }
                    }
                    assert forall|a: int, b: int| 0 <= a < b < scored@.len() implies #[trigger] src[a] != #[trigger] src[b]
                        && (scored@[a].0 == scored@[b].0 ==> src[a] < src[b]) by {
                        if a < pos && b < pos {
                            assert(scored@[a] == old_s[a] && scored@[b] == old_s[b]);
                            assert(src[a] == old_src[a] && src[b] == old_src[b]);
                        } else if a < pos && b == pos {
                            assert(src[a] == old_src[a]);
                        } else if a < pos && b > pos {
                            assert(scored@[a] == old_s[a] && scored@[b] == old_s[b - 1]);
                            assert(src[a] == old_src[a] && src[b] == old_src[b - 1]);
                        } else if a == pos {
                            assert(scored@[b] == old_s[b - 1]);
                            assert(src[b] == old_src[b - 1]);
                        } else {
                            assert(scored@[a] == old_s[a - 1] && scored@[b] == old_s[b - 1]);
                            assert(src[a] == old_src[a - 1] && src[b] == old_src[b - 1]);
                        }
                    }
                }
            },
            None => {
                assert(matcher.spec_fuzzy_match(lines@[i as int]@, pattern@) is None);
            },
        }
        i += 1;
    }
    let mut out: Vec<&'static str> = Vec::new();
    let mut k: usize = 0;
    while k < scored.len()
        invariant
            k <= scored@.len(),
            scored@.len() <= lines@.len(),
            out@.len() == k,
            src.len() == scored@.len(),
            forall|a: int| 0 <= a < scored@.len() ==> 0 <= #[trigger] src[a] < lines@.len() && lines@[src[a]]
                == scored@[a].1,
            forall|a: int| 0 <= a < k ==> out@[a] == (#[trigger] scored@[a]).1,
            forall|a: int, b: int| 0 <= a < b < scored@.len() ==> #[trigger] scored@[a].0 >= #[trigger] scored@[b].0,
            forall|a: int, b: int|
                0 <= a < b < scored@.len() ==> #[trigger] src[a] != #[trigger] src[b] && (scored@[a].0 == scored@[b].0
                    ==> src[a] < src[b]),
            forall|a: int| 0 <= a < scored@.len() ==> matcher.spec_fuzzy_match(lines@[#[trigger] src[a]]@, pattern@) == Some(scored@[a].0),
            forall|q: int| 0 <= q < lines@.len() && (#[trigger] matcher.spec_fuzzy_match(lines@[q]@, pattern@)) is Some ==> src.contains(q),
        decreases scored.len() - k,
    {
        out.push(scored[k].1);
        k += 1;
    }
    proof {
        assert forall|a: int| 0 <= a < out@.len() implies lines@.contains(#[trigger] out@[a]) by {
            assert(out@[a] == scored@[a].1);
            let j = src[a];
            assert(0 <= j < lines@.len() && lines@[j] == out@[a]);
        }
        let sc = Seq::new(scored@.len(), |a: int| scored@[a].0);
        assert forall|a: int, b: int| 0 <= a < b < out@.len() implies #[trigger] src[a] != #[trigger] src[b] && sc[a]
            >= sc[b] && (sc[a] == sc[b] ==> src[a] < src[b]) by {
            assert(scored@[a].0 >= scored@[b].0);
        }
        assert(stable_score_order(lines@, out@, src, sc));
        assert forall|a: int| 0 <= a < src.len() implies matcher.spec_fuzzy_match(lines@[#[trigger] src[a]]@, pattern@)
            == Some(sc[a]) by {
            assert(sc[a] == scored@[a].0);
        }
        assert(filtered_by_score(matcher, pattern@, lines@, out@, src, sc));
    }
    out
}

} // verus!
