//! Helpers shared by the engines: case detection, byte-range substrings and
//! the regular-expression searches done by the `regex` crate.
use vstd::prelude::*;

use crate::text::{
    byte_len, char_byte_offsets, char_is_uppercase, lemma_byte_len_append, lemma_byte_len_mono, str_to_chars,
    string_push, unicode_is_uppercase,
};
use crate::{chars_before_byte, count_chars_before, is_boundary, lemma_chars_before_byte, range_fits_clamped, ranges_fit};

verus! {

//------------------------------------------------------------------------------
// Regular expressions

/// Characters that have a meaning in a regular expression and are escaped by
/// `regex::escape`.
pub open spec fn is_regex_meta(c: char) -> bool {
    c == '\\' || c == '.' || c == '+' || c == '*' || c == '?' || c == '(' || c == ')' || c == '|' || c == '['
        || c == ']' || c == '{' || c == '}' || c == '^' || c == '$' || c == '#' || c == '&' || c == '-' || c
        == '~'
}

/// `s` with a backslash put before every meta character.
pub open spec fn spec_regex_escape(s: Seq<char>) -> Seq<char>
    decreases s.len(),
{
    if s.len() == 0 {
        Seq::empty()
    } else {
        let c = s.last();
        spec_regex_escape(s.drop_last()) + if is_regex_meta(c) {
            seq!['\\', c]
        } else {
            seq![c]
        }
    }
}

/// Whether `regex::Regex::new` accepts the pattern.
pub uninterp spec fn regex_valid(pattern: Seq<char>) -> bool;

/// The byte range of the first match `regex::Regex::find` reports for a
/// valid pattern in `text`, `None` when there is none.
pub uninterp spec fn regex_first_match(pattern: Seq<char>, text: Seq<char>) -> Option<(usize, usize)>;

/// The byte ranges of the successive non-overlapping matches
/// `regex::Regex::find_iter` reports for a valid pattern in `text`.
pub uninterp spec fn regex_all_matches(pattern: Seq<char>, text: Seq<char>) -> Seq<(usize, usize)>;

/// Calls `regex::escape`.
/// Claimed, as its source shows: every meta character (`\ . + * ? ( ) | [ ]
/// { } ^ $ # & - ~`) gets a backslash in front, all else is kept.
#[verifier::external_body]
pub(crate) fn regex_escape(s: &str) -> (r: String)
    ensures
        r@ == spec_regex_escape(s@),
{
    regex::escape(s)
}

/// Calls `regex::Regex::new` and reports whether it succeeded.
/// Claimed: the result is `regex_valid` of the pattern.
#[verifier::external_body]
pub(crate) fn regex_is_valid(pattern: &str) -> (r: bool)
    ensures
        r == regex_valid(pattern@),
{
    regex::Regex::new(pattern).is_ok()
}

/// Compiles a valid pattern with `regex::Regex::new` and calls
/// `regex::Regex::find` on `text`, giving the match's byte range.
/// Claimed: the result is `regex_first_match` of the arguments; as the crate
/// documents, a match's offsets are character boundaries of `text`, the start
/// not after the end.
#[verifier::external_body]
pub(crate) fn regex_find(pattern: &str, text: &str) -> (r: Option<(usize, usize)>)
    requires
        regex_valid(pattern@),
    ensures
        r == regex_first_match(pattern@, text@),
        r matches Some((s, e)) ==> s <= e && is_boundary(text@, s as int) && is_boundary(text@, e as int),
{
    regex::Regex::new(pattern).unwrap().find(text).map(|m| (m.start(), m.end()))
}

/// Compiles a valid pattern with `regex::Regex::new` and collects the byte
/// ranges `regex::Regex::find_iter` yields on `text`.
/// Claimed: the result is `regex_all_matches` of the arguments; as the crate
/// documents, the matches come in order without overlapping and their
/// offsets are character boundaries of `text`.
#[verifier::external_body]
pub(crate) fn regex_find_all(pattern: &str, text: &str) -> (r: Vec<(usize, usize)>)
    requires
        regex_valid(pattern@),
    ensures
        r@ == regex_all_matches(pattern@, text@),
        forall|k: int|
            0 <= k < r@.len() ==> (#[trigger] r@[k]).0 <= r@[k].1 && is_boundary(text@, r@[k].0 as int)
                && is_boundary(text@, r@[k].1 as int),
        forall|k: int| 0 <= k < r@.len() - 1 ==> (#[trigger] r@[k]).1 <= r@[k + 1].0,
{
    regex::Regex::new(pattern).unwrap().find_iter(text).map(|m| (m.start(), m.end())).collect()
}

//------------------------------------------------------------------------------
// Case

/// Whether some character of `s` is uppercase.
pub open spec fn spec_contains_upper(s: Seq<char>) -> bool {
    exists|k: int| 0 <= k < s.len() && unicode_is_uppercase(#[trigger] s[k])
}

pub fn contains_upper(s: &str) -> (r: bool)
    ensures
        r == spec_contains_upper(s@),
{
    let cs = str_to_chars(s);
    let mut k: usize = 0;
    while k < cs.len()
        invariant
            cs@ == s@,
            k <= cs@.len(),
            forall|q: int| 0 <= q < k ==> !unicode_is_uppercase(#[trigger] s@[q]),
        decreases cs@.len() - k,
    {
        if char_is_uppercase(cs[k]) {
            return true;
        }
        k += 1;
    }
    false
}

//------------------------------------------------------------------------------
// Byte ranges

/// At a character boundary `b`, the characters before it take up exactly `b`
/// bytes.
pub proof fn lemma_boundary_chars(s: Seq<char>, b: int)
    requires
        is_boundary(s, b),
    ensures
        0 <= chars_before_byte(s, b) <= s.len(),
        byte_len(s.take(chars_before_byte(s, b))) == b,
{
    let k = choose|k: int| 0 <= k <= s.len() && byte_len(#[trigger] s.take(k)) == b;
    assert forall|q: int| 0 <= q < k implies byte_len(#[trigger] s.take(q)) < b by {
        lemma_byte_len_mono(s, q, k);
    }
    lemma_chars_before_byte(s, b, k);
}

/// A boundary of a piece of `s` is, shifted by the bytes before the piece, a
/// boundary of `s`.
pub proof fn lemma_boundary_shift(s: Seq<char>, a: int, b: int, x: int)
    requires
        0 <= a <= b <= s.len(),
        is_boundary(s.subrange(a, b), x),
    ensures
        is_boundary(s, x + byte_len(s.take(a))),
{
    let sub = s.subrange(a, b);
    let k = choose|k: int| 0 <= k <= sub.len() && byte_len(#[trigger] sub.take(k)) == x;
    assert(s.take(a + k) =~= s.take(a) + sub.take(k));
    lemma_byte_len_append(s.take(a), sub.take(k));
    assert(byte_len(s.take(a + k)) == x + byte_len(s.take(a)));
}

/// The characters of `text` between two byte offsets that are character
/// boundaries (`text[start..end]`).
pub fn byte_substring(text: &str, start: usize, end: usize) -> (r: String)
    requires
        start <= end,
        is_boundary(text@, start as int),
        is_boundary(text@, end as int),
    ensures
        r@ == text@.subrange(chars_before_byte(text@, start as int), chars_before_byte(text@, end as int)),
{
    proof {
        lemma_boundary_chars(text@, start as int);
        lemma_boundary_chars(text@, end as int);
        if chars_before_byte(text@, end as int) < chars_before_byte(text@, start as int) {
            lemma_byte_len_mono(text@, chars_before_byte(text@, end as int), chars_before_byte(text@, start as int));
        }
    }
    let offsets = char_byte_offsets(text);
    let a = count_chars_before(&offsets, start, Ghost(text@));
    let b = count_chars_before(&offsets, end, Ghost(text@));
    let cs = str_to_chars(text);
    let mut out = String::new();
    let mut k = a;
    while k < b
        invariant
            cs@ == text@,
            a <= k <= b <= cs@.len(),
            out@ == text@.subrange(a as int, k as int),
        decreases b - k,
    {
        string_push(&mut out, cs[k]);
        assert(text@.subrange(a as int, k + 1) =~= text@.subrange(a as int, k as int).push(text@[k as int]));
        k += 1;
    }
    out
}

//------------------------------------------------------------------------------
// Searching the matching ranges of an item

/// A byte offset cut to the byte length of `text`.
pub open spec fn clamp_offset(x: usize, text: Seq<char>) -> int {
    if x <= byte_len(text) {
        x as int
    } else {
        byte_len(text)
    }
}

/// The characters of `text` inside the range `r`, its ends cut to the text.
pub open spec fn range_piece(text: Seq<char>, r: (usize, usize)) -> Seq<char> {
    text.subrange(
        chars_before_byte(text, clamp_offset(r.0, text)),
        chars_before_byte(text, clamp_offset(r.1, text)),
    )
}

/// The first match of `pattern` inside the range `r`, as offsets in the whole
/// text.
pub open spec fn piece_match(pattern: Seq<char>, text: Seq<char>, r: (usize, usize)) -> Option<(usize, usize)> {
    match regex_first_match(pattern, range_piece(text, r)) {
        Some((a, b)) => Some(((a + clamp_offset(r.0, text)) as usize, (b + clamp_offset(r.0, text)) as usize)),
        None => None,
    }
}

/// The match of `pattern` in the first of `ranges`, from the `k`-th on, in
/// which it matches at all.
pub open spec fn first_range_match(pattern: Seq<char>, text: Seq<char>, ranges: Seq<(usize, usize)>, k: int) -> Option<
    (usize, usize),
>
    decreases ranges.len() - k,
{
    if k < 0 || k >= ranges.len() {
        None
    } else {
        match piece_match(pattern, text, ranges[k]) {
            Some(m) => Some(m),
            None => first_range_match(pattern, text, ranges, k + 1),
        }
    }
}

/// The ranges an item is matched on: its own, or else the whole text.
pub open spec fn ranges_or_whole(text: Seq<char>, ranges: Option<Seq<(usize, usize)>>) -> Seq<(usize, usize)> {
    match ranges {
        Some(r) => r,
        None => seq![(0usize, byte_len(text) as usize)],
    }
}

/// The empty prefix is a boundary, and the whole text is a range that fits.
pub proof fn lemma_whole_range_fits(text: Seq<char>)
    requires
        byte_len(text) <= usize::MAX,
    ensures
        is_boundary(text, 0),
        is_boundary(text, byte_len(text)),
        ranges_fit(text, seq![(0usize, byte_len(text) as usize)]),
{
    assert(text.take(0) =~= Seq::<char>::empty());
    crate::encode_utf8_empty_len();
    assert(text.take(text.len() as int) =~= text);
    assert(byte_len(text.take(0)) == 0);
    assert(byte_len(text.take(text.len() as int)) == byte_len(text));
    lemma_byte_len_mono(text, 0, text.len() as int);
}

/// A boundary of `s` is at most its byte length.
pub proof fn lemma_boundary_within(s: Seq<char>, b: int)
    requires
        is_boundary(s, b),
    ensures
        0 <= b <= byte_len(s),
{
    let k = choose|k: int| 0 <= k <= s.len() && byte_len(#[trigger] s.take(k)) == b;
    lemma_byte_len_mono(s, k, s.len() as int);
    assert(s.take(s.len() as int) =~= s);
    lemma_byte_len_mono(s, 0, k);
}

/// Searches the ranges in order for the first one in which a valid pattern
/// matches, and gives that match in offsets of the whole text.
pub(crate) fn find_in_ranges(pattern: &str, text: &str, ranges: &[(usize, usize)]) -> (r: Option<(usize, usize)>)
    requires
        regex_valid(pattern@),
        ranges_fit(text@, ranges@),
    ensures
        r == first_range_match(pattern@, text@, ranges@, 0),
        r matches Some((b, e)) ==> b <= e && is_boundary(text@, b as int) && is_boundary(text@, e as int),
{
    let len = crate::text::str_byte_len(text);
    let mut k: usize = 0;
    while k < ranges.len()
        invariant
            len == byte_len(text@),
            regex_valid(pattern@),
            ranges_fit(text@, ranges@),
            k <= ranges@.len(),
            first_range_match(pattern@, text@, ranges@, 0) == first_range_match(pattern@, text@, ranges@, k as int),
        decreases ranges@.len() - k,
    {
        let start = if ranges[k].0 <= len { ranges[k].0 } else { len };
        let end = if ranges[k].1 <= len { ranges[k].1 } else { len };
        assert(range_fits_clamped(ranges@[k as int], text@));
        let piece = byte_substring(text, start, end);
        let found = regex_find(pattern, piece.as_str());
        match found {
            Some((a, b)) => {
                proof {
                    lemma_boundary_chars(text@, start as int);
                    lemma_boundary_chars(text@, end as int);
                    let ca = chars_before_byte(text@, start as int);
                    let cb = chars_before_byte(text@, end as int);
                    if cb < ca {
                        lemma_byte_len_mono(text@, cb, ca);
                    }
                    lemma_boundary_shift(text@, ca, cb, a as int);
                    lemma_boundary_shift(text@, ca, cb, b as int);
                    lemma_boundary_within(text@, (a + start) as int);
                    lemma_boundary_within(text@, (b + start) as int);
                }
                return Some((a + start, b + start));
            },
            None => {},
        }
        k += 1;
    }
    None
}

} // verus!
