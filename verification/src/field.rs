//! Field ranges (`1`, `1..`, `..3`, `2..-1`) and the extraction of fields
//! from a text cut at the matches of a delimiter pattern.
use vstd::prelude::*;

use crate::engine::split::find_char_from;
use crate::engine::util::{
    byte_substring, lemma_boundary_within, lemma_whole_range_fits, regex_all_matches, regex_find_all,
    regex_is_valid, regex_valid,
};
use crate::text::{byte_len, push_str, str_byte_len, str_to_chars};
use crate::{chars_before_byte, is_boundary};

verus! {

//------------------------------------------------------------------------------
// Parsing a field range

/// Whether the `regex` crate counts `c` as a digit (`\d`, a Unicode decimal
/// digit).
pub uninterp spec fn regex_digit(c: char) -> bool;

/// Asks the `regex` crate whether `c` is a digit (`\d`).
/// Claimed: the answer is `regex_digit(c)`, and among ASCII characters exactly
/// '0'..='9' are digits (`\d` is the Unicode class of decimal digits, whose
/// ASCII members are those ten).
#[verifier::external_body]
fn char_is_regex_digit(c: char) -> (r: bool)
    ensures
        r == regex_digit(c),
        (c as u32) < 128 ==> (r <==> '0' <= c <= '9'),
{
    let mut buf = [0u8; 4];
    regex::Regex::new(r"^\d$").unwrap().is_match(c.encode_utf8(&mut buf))
}

/// A non-empty run of digits.
pub open spec fn all_digits(s: Seq<char>) -> bool {
    s.len() > 0 && forall|i: int| 0 <= i < s.len() ==> regex_digit(#[trigger] s[i])
}

/// A number as the pattern `-?\d+` reads it.
pub open spec fn is_number(s: Seq<char>) -> bool {
    all_digits(s) || (s.len() >= 2 && s[0] == '-' && all_digits(s.drop_first()))
}

/// The number of digits in `s` from `k` on, up to the first non-digit.
pub open spec fn digit_run(s: Seq<char>, k: int) -> int
    decreases s.len() - k,
{
    if k < 0 || k >= s.len() || !regex_digit(s[k]) {
        0
    } else {
        1 + digit_run(s, k + 1)
    }
}

/// The length of the longest prefix of `s` that is a number (0 if none).
pub open spec fn number_prefix_len(s: Seq<char>) -> int {
    if s.len() > 0 && s[0] == '-' {
        if digit_run(s, 1) > 0 {
            1 + digit_run(s, 1)
        } else {
            0
        }
    } else {
        digit_run(s, 0)
    }
}

/// How `^(-?\d+)?(\.\.)?(-?\d+)?$` splits a range text: the left number (or
/// nothing), whether there is a `..`, and the right number (or nothing); `None`
/// when the text has another shape.
pub open spec fn range_parts(s: Seq<char>) -> Option<(Seq<char>, bool, Seq<char>)> {
    match find_char_from(s, '.', 0) {
        Some(p) => {
            let l = s.take(p);
            let r = s.skip(p + 2);
            if p + 1 < s.len() && s[p + 1] == '.' && (l.len() == 0 || is_number(l)) && (r.len() == 0
                || is_number(r)) {
                Some((l, true, r))
            } else {
                None
            }
        },
        None => {
            let n = number_prefix_len(s);
            let r = s.skip(n);
            if r.len() == 0 || is_number(r) {
                Some((s.take(n), false, r))
            } else {
                None
            }
        },
    }
}

/// ASCII digits only.
pub open spec fn ascii_digits(s: Seq<char>) -> bool {
    s.len() > 0 && forall|i: int| 0 <= i < s.len() ==> '0' <= #[trigger] s[i] <= '9'
}

/// The value of a run of ASCII digits.
pub open spec fn digits_value(s: Seq<char>) -> nat
    decreases s.len(),
{
    if s.len() == 0 {
        0
    } else {
        digits_value(s.drop_last()) * 10 + (s.last() as nat - '0' as nat) as nat
    }
}

/// What `str::parse::<i32>` gives for a number, or `default` when it fails
/// (a digit that is not ASCII, or a value out of range).
pub open spec fn parse_i32_or(s: Seq<char>, default: i32) -> i32 {
    let (neg, ds) = if s.len() > 0 && s[0] == '-' {
        (true, s.drop_first())
    } else {
        (false, s)
    };
    let v: int = if neg {
        -(digits_value(ds) as int)
    } else {
        digits_value(ds) as int
    };
    if ascii_digits(ds) && i32::MIN <= v <= i32::MAX {
        v as i32
    } else {
        default
    }
}

/// Represents a range of fields to extract from text
#[derive(PartialEq, Eq, Clone, Debug)]
pub enum FieldRange {
    /// A single field at the given index
    Single(i32),
    /// All fields from the start up to and including the given index
    LeftInf(i32),
    /// All fields from the given index to the end
    RightInf(i32),
    /// Fields between two indices (inclusive)
    Both(i32, i32),
}

/// The field range a text denotes: `1`, `1..`, `..3`, `1..3`, `..` (all).
/// A left number that does not parse counts as 1, a right one as -1.
pub open spec fn spec_parse_field_range(s: Seq<char>) -> Option<FieldRange> {
    match range_parts(s) {
        None => None,
        Some((l, sep, r)) => if l.len() == 0 && r.len() == 0 {
            Some(FieldRange::RightInf(0))
        } else if r.len() == 0 {
            if sep {
                Some(FieldRange::RightInf(parse_i32_or(l, 1)))
            } else {
                Some(FieldRange::Single(parse_i32_or(l, 1)))
            }
        } else if l.len() == 0 {
            if sep {
                Some(FieldRange::LeftInf(parse_i32_or(r, -1i32)))
            } else {
                Some(FieldRange::Single(parse_i32_or(r, -1i32)))
            }
        } else {
            Some(FieldRange::Both(parse_i32_or(l, 1), parse_i32_or(r, -1i32)))
        },
    }
}

/// A longer run of digits is worth at least as much.
pub proof fn lemma_digits_value_mono(s: Seq<char>, i: int)
    requires
        0 <= i <= s.len(),
    ensures
        digits_value(s.take(i)) <= digits_value(s),
    decreases s.len() - i,
{
    if i < s.len() {
        lemma_digits_value_mono(s, i + 1);
        assert(s.take(i + 1).drop_last() =~= s.take(i));
    } else {
        assert(s.take(i) =~= s);
    }
}

/// A run of digits from `k` up to `e`, where the run stops, has length
/// `e - k`.
proof fn lemma_digit_run(s: Seq<char>, k: int, e: int)
    requires
        0 <= k <= e <= s.len(),
        forall|x: int| k <= x < e ==> regex_digit(#[trigger] s[x]),
        e == s.len() || !regex_digit(s[e]),
    ensures
        digit_run(s, k) == e - k,
    decreases e - k,
{
    if k < e {
        lemma_digit_run(s, k + 1, e);
    }
}

/// Counts the digits of `cs` from `k` on.
fn count_digit_run(cs: &Vec<char>, k: usize) -> (r: usize)
    requires
        k <= cs@.len(),
    ensures
        r == digit_run(cs@, k as int),
        k + r <= cs@.len(),
{
    let mut e = k;
    while e < cs.len() && char_is_regex_digit(cs[e])
        invariant
            k <= e <= cs@.len(),
            forall|q: int| k <= q < e ==> regex_digit(#[trigger] cs@[q]),
        decreases cs@.len() - e,
    {
        e += 1;
    }
    proof {
        lemma_digit_run(cs@, k as int, e as int);
    }
    e - k
}

/// Reads the number `cs[lo..hi]` as `str::parse::<i32>` does, `default` when
/// that fails.
fn parse_i32_chars(cs: &Vec<char>, lo: usize, hi: usize, default: i32) -> (r: i32)
    requires
        lo <= hi <= cs@.len(),
    ensures
        r == parse_i32_or(cs@.subrange(lo as int, hi as int), default),
{
    let ghost s = cs@.subrange(lo as int, hi as int);
    let neg = lo < hi && cs[lo] == '-';
    let start = if neg {
        lo + 1
    } else {
        lo
    };
    let ghost ds = cs@.subrange(start as int, hi as int);
    proof {
        if neg {
            assert(s.drop_first() =~= ds);
        } else {
            assert(s =~= ds);
        }
    }
    if start >= hi {
        return default;
    }
    // the magnitude, kept below a bound that already exceeds every i32
    let bound: u64 = 4294967296u64;
    let mut v: u64 = 0;
    let mut i = start;
    while i < hi
        invariant
            start <= i <= hi <= cs@.len(),
            lo <= start,
            ds == cs@.subrange(start as int, hi as int),
            s == cs@.subrange(lo as int, hi as int),
            neg == (lo < hi && cs@[lo as int] == '-'),
            start == if neg { lo + 1 } else { lo as int },
            neg ==> s.drop_first() == ds,
            !neg ==> s == ds,
            forall|q: int| start <= q < i ==> '0' <= #[trigger] cs@[q] <= '9',
            v == digits_value(cs@.subrange(start as int, i as int)),
            v <= bound,
            bound == 4294967296,
        decreases hi - i,
    {
        let c = cs[i];
        if !('0' <= c && c <= '9') {
            proof {
                assert(!ascii_digits(ds)) by {
                    assert(ds[i - start] == c);
                }
            }
            return default;
        }
        let d = (c as u32 - '0' as u32) as u64;
        proof {
            assert(cs@.subrange(start as int, i + 1).drop_last() =~= cs@.subrange(start as int, i as int));
        }
        assert(v * 10 <= 42949672960) by (nonlinear_arith)
            requires
                v <= 4294967296,
        ;
        assert(d <= 9);
        if v * 10 + d > bound {
            proof {
                assert(digits_value(cs@.subrange(start as int, i + 1)) > bound);
                assert(cs@.subrange(start as int, i + 1) =~= ds.take(i + 1 - start));
                lemma_digits_value_mono(ds, i + 1 - start);
            }
            return default;
        }
        v = v * 10 + d;
        i += 1;
    }
    proof {
        assert(cs@.subrange(start as int, hi as int) =~= ds);
        assert(ascii_digits(ds));
    }
    if neg {
        if v <= 2147483648u64 {
            let w = v as i64;
            (0i64 - w) as i32
        } else {
            default
        }
    } else {
        if v <= 2147483647u64 {
            v as i32
        } else {
            default
        }
    }
}

/// Whether `cs[lo..hi]` is a number.
fn chars_are_number(cs: &Vec<char>, lo: usize, hi: usize) -> (r: bool)
    requires
        lo <= hi <= cs@.len(),
    ensures
        r == is_number(cs@.subrange(lo as int, hi as int)),
{
    let ghost s = cs@.subrange(lo as int, hi as int);
    if all_chars_digits(cs, lo, hi) {
        return true;
    }
    if hi - lo >= 2 && cs[lo] == '-' {
        proof {
            assert(s.drop_first() =~= cs@.subrange(lo + 1, hi as int));
        }
        all_chars_digits(cs, lo + 1, hi)
    } else {
        false
    }
}

/// Whether every character of `cs[lo..hi]` is a digit, with at least one.
fn all_chars_digits(cs: &Vec<char>, lo: usize, hi: usize) -> (r: bool)
    requires
        lo <= hi <= cs@.len(),
    ensures
        r == all_digits(cs@.subrange(lo as int, hi as int)),
{
    let ghost s = cs@.subrange(lo as int, hi as int);
    if lo == hi {
        return false;
    }
    let mut i = lo;
    while i < hi
        invariant
            lo <= i <= hi <= cs@.len(),
            s == cs@.subrange(lo as int, hi as int),
            forall|q: int| lo <= q < i ==> regex_digit(#[trigger] cs@[q]),
        decreases hi - i,
    {
        if !char_is_regex_digit(cs[i]) {
            proof {
                assert(s[i - lo] == cs@[i as int]);
            }
            return false;
        }
        i += 1;
    }
    proof {
        assert forall|q: int| 0 <= q < s.len() implies regex_digit(#[trigger] s[q]) by {
            assert(s[q] == cs@[lo + q]);
        }
    }
    true
}

impl FieldRange {
    /// Parses a field range from a string (e.g., "1", "1..", "..10", "1..10")
    pub fn from_str(range: &str) -> (r: Option<FieldRange>)
        ensures
            r == spec_parse_field_range(range@),
    {
        let cs = str_to_chars(range);
        let n = cs.len();
        let mut p: usize = 0;
        while p < n && cs[p] != '.'
            invariant
                cs@ == range@,
                n == cs@.len(),
                p <= n,
                find_char_from(range@, '.', 0) == find_char_from(range@, '.', p as int),
            decreases n - p,
        {
            p += 1;
        }
        let ghost s = range@;
        // the left part, the separator and the right part
        let (l_end, sep, r_start) = if p < n {
            if p + 1 < n && cs[p + 1] == '.' {
                (p, true, p + 2)
            } else {
                return None;
            }
        } else {
            let k = if n > 0 && cs[0] == '-' {
                let run = count_digit_run(&cs, 1);
                if run > 0 {
                    1 + run
                } else {
                    0
                }
            } else {
                count_digit_run(&cs, 0)
            };
            (k, false, k)
        };
        proof {
            assert(s.take(l_end as int) =~= cs@.subrange(0, l_end as int));
            assert(s.skip(r_start as int) =~= cs@.subrange(r_start as int, n as int));
        }
        let l_ok = !sep || l_end == 0 || chars_are_number(&cs, 0, l_end);
        let r_ok = r_start == n || chars_are_number(&cs, r_start, n);
        proof {
            if p < n {
                assert(find_char_from(s, '.', p as int) == Some(p as int));
            } else {
                assert(find_char_from(s, '.', p as int) is None);
            }
        }
        if !(l_ok && r_ok) {
            return None;
        }
        let has_left = l_end > 0;
        let has_right = r_start < n;
        if !has_left && !has_right {
            Some(FieldRange::RightInf(0))
        } else if !has_right {
            let left = parse_i32_chars(&cs, 0, l_end, 1);
            if sep {
                Some(FieldRange::RightInf(left))
            } else {
                Some(FieldRange::Single(left))
            }
        } else if !has_left {
            let right = parse_i32_chars(&cs, r_start, n, -1);
            if sep {
                Some(FieldRange::LeftInf(right))
            } else {
                Some(FieldRange::Single(right))
            }
        } else {
            let left = parse_i32_chars(&cs, 0, l_end, 1);
            let right = parse_i32_chars(&cs, r_start, n, -1);
            Some(FieldRange::Both(left, right))
        }
    }
}

//------------------------------------------------------------------------------
// Index pairs

/// A field index with negative values counted from the end (`-1` is the last
/// of `length` fields, the length taken as at most `i32::MAX`), and below 0
/// taken as 0.
pub open spec fn spec_translate_neg(idx: i32, length: nat) -> int {
    let len: int = if length <= i32::MAX {
        length as int
    } else {
        i32::MAX as int
    };
    let v: int = if idx < 0 {
        idx + len + 1
    } else {
        idx as int
    };
    if v < 0 {
        0
    } else {
        v
    }
}

pub open spec fn min_int(a: int, b: int) -> int {
    if a <= b {
        a
    } else {
        b
    }
}

pub open spec fn max_int(a: int, b: int) -> int {
    if a >= b {
        a
    } else {
        b
    }
}

/// The fields `[start, stop)` (counted from 0) a range selects among `length`
/// fields, `None` when it selects none.
pub open spec fn spec_index_pair(f: FieldRange, length: nat) -> Option<(int, int)> {
    match f {
        FieldRange::Single(num) => {
            let n = spec_translate_neg(num, length);
            if n == 0 || n > length {
                None
            } else {
                Some((n - 1, n))
            }
        },
        FieldRange::LeftInf(right) => {
            let r = spec_translate_neg(right, length);
            if length == 0 || r == 0 {
                None
            } else {
                Some((0, min_int(r, length as int)))
            }
        },
        FieldRange::RightInf(left) => {
            let l = spec_translate_neg(left, length);
            if length == 0 || l > length {
                None
            } else {
                Some((max_int(l, 1) - 1, length as int))
            }
        },
        FieldRange::Both(left, right) => {
            let l = spec_translate_neg(left, length);
            let r = spec_translate_neg(right, length);
            if length == 0 || r == 0 || l > r || l > length {
                None
            } else {
                Some((max_int(l, 1) - 1, min_int(r, length as int)))
            }
        },
    }
}

/// The pair `to_index_pair` returns, as integers.
pub open spec fn pair_view(r: Option<(usize, usize)>) -> Option<(int, int)> {
    match r {
        Some((a, b)) => Some((a as int, b as int)),
        None => None,
    }
}

fn translate_neg(idx: i32, length: usize) -> (r: usize)
    ensures
        r == spec_translate_neg(idx, length as nat),
{
    let len: i32 = if length <= 2147483647usize {
        length as i32
    } else {
        i32::MAX
    };
    let v: i32 = if idx < 0 {
        idx + len + 1
    } else {
        idx
    };
    if v < 0 {
        0
    } else {
        v as usize
    }
}

impl FieldRange {
    /// Converts a field range to an index pair (left, right).
    ///
    /// For example, 1..3 => (0, 4). Note that field range is inclusive while
    /// the output index will exclude the right end.
    pub fn to_index_pair(&self, length: usize) -> (r: Option<(usize, usize)>)
        ensures
            pair_view(r) == spec_index_pair(*self, length as nat),
            r matches Some((a, b)) ==> a < b <= length,
    {
        match *self {
            FieldRange::Single(num) => {
                let num = translate_neg(num, length);
                if num == 0 || num > length {
                    None
                } else {
                    Some((num - 1, num))
                }
            },
            FieldRange::LeftInf(right) => {
                let right = translate_neg(right, length);
                if length == 0 || right == 0 {
                    None
                } else {
                    let right = if right < length {
                        right
                    } else {
                        length
                    };
                    Some((0, right))
                }
            },
            FieldRange::RightInf(left) => {
                let left = translate_neg(left, length);
                if length == 0 || left > length {
                    None
                } else {
                    let left = if left > 1 {
                        left
                    } else {
                        1
                    };
                    Some((left - 1, length))
                }
            },
            FieldRange::Both(left, right) => {
                let left = translate_neg(left, length);
                let right = translate_neg(right, length);
                if length == 0 || right == 0 || left > right || left > length {
                    None
                } else {
                    let l = if left > 1 {
                        left
                    } else {
                        1
                    };
                    let r = if right < length {
                        right
                    } else {
                        length
                    };
                    Some((l - 1, r))
                }
            },
        }
    }
}

//------------------------------------------------------------------------------
// Fields of a text

/// A delimiter: a pattern the `regex` crate accepts; the text is cut at its
/// matches.
#[derive(Debug)]
pub struct Delimiter {
    pattern: String,
}

impl View for Delimiter {
    type V = Seq<char>;

    closed spec fn view(&self) -> Seq<char> {
        self.pattern@
    }
}

impl Clone for Delimiter {
    fn clone(&self) -> (r: Self)
        ensures
            r@ == self@,
    {
        proof {
            use_type_invariant(self);
        }
        Delimiter { pattern: self.pattern.clone() }
    }
}

impl Delimiter {
    #[verifier::type_invariant]
    spec fn valid(self) -> bool {
        regex_valid(self.pattern@)
    }

    /// The delimiter for `pattern`, `None` when the pattern does not compile.
    pub fn new(pattern: &str) -> (r: Option<Delimiter>)
        ensures
            r is Some <==> regex_valid(pattern@),
            r matches Some(d) ==> d@ == pattern@,
    {
        if regex_is_valid(pattern) {
            Some(Delimiter { pattern: pattern.to_owned() })
        } else {
            None
        }
    }

    /// The pattern.
    pub fn as_str(&self) -> (r: &str)
        ensures
            r@ == self@,
            regex_valid(r@),
    {
        proof {
            use_type_invariant(self);
        }
        self.pattern.as_str()
    }
}

/// The byte ranges of the fields, given the delimiter matches `m` in a text of
/// `len` bytes: each field runs from the end of the previous match (or 0) to
/// the start of the next (or `len`). ("|", "a|b||c") -> [(0, 1), (2, 3), (4,
/// 4), (5, 6)].
pub open spec fn delimiter_ranges(m: Seq<(usize, usize)>, len: usize) -> Seq<(usize, usize)> {
    Seq::new(
        m.len() + 1,
        |k: int|
            (
                if k == 0 {
                    0usize
                } else {
                    m[k - 1].1
                },
                if k < m.len() {
                    m[k].0
                } else {
                    len
                },
            ),
    )
}

/// The byte ranges of the fields of `text` cut at the matches of `d`.
pub open spec fn field_ranges(d: Seq<char>, text: Seq<char>) -> Seq<(usize, usize)> {
    delimiter_ranges(regex_all_matches(d, text), byte_len(text) as usize)
}

/// The matches of a delimiter come in order: for `i <= j`, match `i` starts
/// and ends no later than match `j`, and ends no later than `j` starts when
/// `i < j`.
proof fn lemma_matches_ordered(m: Seq<(usize, usize)>, i: int, j: int)
    requires
        forall|k: int| 0 <= k < m.len() ==> (#[trigger] m[k]).0 <= m[k].1,
        forall|k: int| 0 <= k < m.len() - 1 ==> (#[trigger] m[k]).1 <= m[k + 1].0,
        0 <= i <= j < m.len(),
    ensures
        m[i].0 <= m[j].0,
        m[i].1 <= m[j].1,
        i < j ==> m[i].1 <= m[j].0,
    decreases j - i,
{
    if i < j {
        lemma_matches_ordered(m, i, j - 1);
        assert(m[j - 1].1 <= m[j].0);
    }
}

/// What holds of the field ranges of a text: each runs forwards between
/// character boundaries, and a field never starts before an earlier one ends.
pub open spec fn ranges_ordered(text: Seq<char>, r: Seq<(usize, usize)>) -> bool {
    &&& forall|k: int|
        0 <= k < r.len() ==> (#[trigger] r[k]).0 <= r[k].1 && is_boundary(text, r[k].0 as int) && is_boundary(
            text,
            r[k].1 as int,
        )
    &&& forall|i: int, j: int| 0 <= i < j < r.len() ==> (#[trigger] r[i]).1 <= (#[trigger] r[j]).0
}

/// The field ranges between the delimiter matches are ordered.
proof fn lemma_delimiter_ranges_ordered(text: Seq<char>, m: Seq<(usize, usize)>, len: usize)
    requires
        len == byte_len(text),
        is_boundary(text, 0),
        is_boundary(text, byte_len(text)),
        forall|q: int|
            0 <= q < m.len() ==> (#[trigger] m[q]).0 <= m[q].1 && is_boundary(text, m[q].0 as int) && is_boundary(
                text,
                m[q].1 as int,
            ),
        forall|q: int| 0 <= q < m.len() - 1 ==> (#[trigger] m[q]).1 <= m[q + 1].0,
    ensures
        ranges_ordered(text, delimiter_ranges(m, len)),
{
    let r = delimiter_ranges(m, len);
    assert forall|q: int| 0 <= q < r.len() implies (#[trigger] r[q]).0 <= r[q].1 && is_boundary(text, r[q].0 as int)
        && is_boundary(text, r[q].1 as int) by {
        if 0 < q < m.len() {
            lemma_matches_ordered(m, q - 1, q);
        } else if q > 0 {
            lemma_boundary_within(text, m[q - 1].1 as int);
        } else if q < m.len() {
            lemma_boundary_within(text, m[q].0 as int);
        }
    }
    assert forall|i: int, j: int| 0 <= i < j < r.len() implies (#[trigger] r[i]).1 <= (#[trigger] r[j]).0 by {
        lemma_matches_ordered(m, i, j - 1);
    }
}

/// The byte ranges of the fields of `text`: each runs from the end of one
/// delimiter match (or 0) to the start of the next (or the end of the text).
fn get_ranges_by_delimiter(delimiter: &Delimiter, text: &str) -> (r: Vec<(usize, usize)>)
    ensures
        r@ == field_ranges(delimiter@, text@),
        r@.len() >= 1,
        ranges_ordered(text@, r@),
{
    let pattern = delimiter.as_str();
    let m = regex_find_all(pattern, text);
    let len = str_byte_len(text);
    proof {
        lemma_whole_range_fits(text@);
    }
    let mut ranges: Vec<(usize, usize)> = Vec::new();
    let mut last: usize = 0;
    let mut k: usize = 0;
    while k < m.len()
        invariant
            k <= m@.len(),
            m@ == regex_all_matches(delimiter@, text@),
            len == byte_len(text@),
            is_boundary(text@, 0),
            is_boundary(text@, byte_len(text@)),
            forall|q: int|
                0 <= q < m@.len() ==> (#[trigger] m@[q]).0 <= m@[q].1 && is_boundary(text@, m@[q].0 as int)
                    && is_boundary(text@, m@[q].1 as int),
            forall|q: int| 0 <= q < m@.len() - 1 ==> (#[trigger] m@[q]).1 <= m@[q + 1].0,
            ranges@ == delimiter_ranges(m@, len).take(k as int),
            last == if k == 0 {
                0usize
            } else {
                m@[k - 1].1
            },
        decreases m@.len() - k,
    {
        ranges.push((last, m[k].0));
        proof {
            assert(ranges@ =~= delimiter_ranges(m@, len).take(k + 1));
        }
        last = m[k].1;
        k += 1;
    }
    ranges.push((last, len));
    proof {
        assert(ranges@ =~= delimiter_ranges(m@, len));
        lemma_delimiter_ranges_ordered(text@, m@, len);
    }
    ranges
}

/// The byte range a field range covers among `ranges` (ending at the start
/// of the field after it, or at `len`), `None` when it selects no field.
pub open spec fn field_span(ranges: Seq<(usize, usize)>, len: usize, f: FieldRange) -> Option<(usize, usize)> {
    match spec_index_pair(f, ranges.len()) {
        Some((start, stop)) => Some(
            (
                ranges[start].0,
                if stop < ranges.len() {
                    ranges[stop].0
                } else {
                    len
                },
            ),
        ),
        None => None,
    }
}

/// The byte ranges the field ranges cover, skipping those that select none.
pub open spec fn matching_spans(ranges: Seq<(usize, usize)>, len: usize, fields: Seq<FieldRange>) -> Seq<
    (usize, usize),
>
    decreases fields.len(),
{
    if fields.len() == 0 {
        Seq::empty()
    } else {
        let prev = matching_spans(ranges, len, fields.drop_last());
        match field_span(ranges, len, fields.last()) {
            Some(x) => prev.push(x),
            None => prev,
        }
    }
}

/// Parses matching fields and returns a vector of byte ranges.
///
/// Given delimiter `,`, text: "a,b,c", and fields &[Single(2), LeftInf(2)],
/// this returns [(2, 4), (0, 4)].
pub fn parse_matching_fields(delimiter: &Delimiter, text: &str, fields: &[FieldRange]) -> (r: Vec<(usize, usize)>)
    ensures
        r@ == matching_spans(field_ranges(delimiter@, text@), byte_len(text@) as usize, fields@),
        forall|k: int|
            0 <= k < r@.len() ==> (#[trigger] r@[k]).0 <= r@[k].1 && is_boundary(text@, r@[k].0 as int)
                && is_boundary(text@, r@[k].1 as int),
        crate::ranges_fit(text@, r@),
{
    let ranges = get_ranges_by_delimiter(delimiter, text);
    let len = str_byte_len(text);
    proof {
        lemma_whole_range_fits(text@);
    }
    let mut ret: Vec<(usize, usize)> = Vec::new();
    let mut k: usize = 0;
    while k < fields.len()
        invariant
            k <= fields@.len(),
            ranges@ == field_ranges(delimiter@, text@),
            ranges@.len() >= 1,
            ranges_ordered(text@, ranges@),
            len == byte_len(text@),
            is_boundary(text@, byte_len(text@)),
            ret@ == matching_spans(ranges@, len, fields@.take(k as int)),
            forall|q: int|
                0 <= q < ret@.len() ==> (#[trigger] ret@[q]).0 <= ret@[q].1 && is_boundary(text@, ret@[q].0 as int)
                    && is_boundary(text@, ret@[q].1 as int),
        decreases fields@.len() - k,
    {
        let field = &fields[k];
        proof {
            assert(fields@.take(k + 1).drop_last() =~= fields@.take(k as int));
            assert(fields@.take(k + 1).last() == fields@[k as int]);
        }
        match field.to_index_pair(ranges.len()) {
            Some((start, stop)) => {
                let begin = ranges[start].0;
                let end = if stop < ranges.len() {
                    ranges[stop].0
                } else {
                    len
                };
                proof {
                    assert(ranges@[start as int].0 <= ranges@[start as int].1);
                    if stop < ranges.len() {
                        assert(ranges@[start as int].1 <= ranges@[stop as int].0);
                    } else {
                        lemma_boundary_within(text@, ranges@[start as int].0 as int);
                    }
                }
                ret.push((begin, end));
            },
            None => {},
        }
        k += 1;
    }
    proof {
        assert(fields@.take(fields@.len() as int) =~= fields@);
        assert forall|q: int| 0 <= q < ret@.len() implies crate::range_fits_clamped(#[trigger] ret@[q], text@) by {
            lemma_boundary_within(text@, ret@[q].0 as int);
            lemma_boundary_within(text@, ret@[q].1 as int);
        }
    }
    ret
}

/// The characters of `text` inside each byte range, one after the other.
pub open spec fn spans_text(text: Seq<char>, spans: Seq<(usize, usize)>) -> Seq<char>
    decreases spans.len(),
{
    if spans.len() == 0 {
        Seq::empty()
    } else {
        let (b, e) = spans.last();
        spans_text(text, spans.drop_last()) + text.subrange(
            chars_before_byte(text, b as int),
            chars_before_byte(text, e as int),
        )
    }
}

/// The text of the fields `fields` selects, one after the other.
pub open spec fn transform_text(d: Seq<char>, text: Seq<char>, fields: Seq<FieldRange>) -> Seq<char> {
    spans_text(text, matching_spans(field_ranges(d, text), byte_len(text) as usize, fields))
}

/// Extracts the specified fields from text using the delimiter
pub fn parse_transform_fields(delimiter: &Delimiter, text: &str, fields: &[FieldRange]) -> (r: String)
    ensures
        r@ == spans_text(text@, matching_spans(field_ranges(delimiter@, text@), byte_len(text@) as usize, fields@)),
{
    let spans = parse_matching_fields(delimiter, text, fields);
    let mut ret = String::new();
    let mut k: usize = 0;
    while k < spans.len()
        invariant
            k <= spans@.len(),
            forall|q: int|
                0 <= q < spans@.len() ==> (#[trigger] spans@[q]).0 <= spans@[q].1 && is_boundary(
                    text@,
                    spans@[q].0 as int,
                ) && is_boundary(text@, spans@[q].1 as int),
            ret@ == spans_text(text@, spans@.take(k as int)),
        decreases spans@.len() - k,
    {
        let (begin, end) = spans[k];
        let piece = byte_substring(text, begin, end);
        push_str(&mut ret, piece.as_str());
        proof {
            assert(spans@.take(k + 1).drop_last() =~= spans@.take(k as int));
        }
        k += 1;
    }
    proof {
        assert(spans@.take(spans@.len() as int) =~= spans@);
    }
    ret
}

/// The text of the fields a field range selects: from the start of its first
/// field to the end of its last, `None` when it selects none.
pub open spec fn spec_string_by_field(d: Seq<char>, text: Seq<char>, f: FieldRange) -> Option<Seq<char>> {
    let ranges = field_ranges(d, text);
    match spec_index_pair(f, ranges.len()) {
        Some((start, stop)) => Some(
            text.subrange(
                chars_before_byte(text, ranges[start].0 as int),
                chars_before_byte(text, ranges[stop - 1].1 as int),
            ),
        ),
        None => None,
    }
}

/// Extracts the text of the fields a field range selects.
///
/// For example, with delimiter `,`, text "a,b,c", and field Single(2), this
/// returns "b". Note that this is different from `to_index_pair`, it uses
/// delimiters.
pub fn get_string_by_field(delimiter: &Delimiter, text: &str, field: &FieldRange) -> (r: Option<String>)
    ensures
        match r {
            Some(s) => spec_string_by_field(delimiter@, text@, *field) == Some(s@),
            None => spec_string_by_field(delimiter@, text@, *field) is None,
        },
{
    let ranges = get_ranges_by_delimiter(delimiter, text);
    match field.to_index_pair(ranges.len()) {
        Some((start, stop)) => {
            let begin = ranges[start].0;
            let end = ranges[stop - 1].1;
            proof {
                if start < stop - 1 {
                    assert(ranges@[start as int].1 <= ranges@[stop - 1].0);
                }
                assert(ranges@[stop - 1].0 <= ranges@[stop - 1].1);
            }
            Some(byte_substring(text, begin, end))
        },
        None => None,
    }
}

/// Extracts the text of the fields a range text (such as `2..3`) selects.
pub fn get_string_by_range(delimiter: &Delimiter, text: &str, range: &str) -> (r: Option<String>)
    ensures
        match spec_parse_field_range(range@) {
            Some(f) => match r {
                Some(s) => spec_string_by_field(delimiter@, text@, f) == Some(s@),
                None => spec_string_by_field(delimiter@, text@, f) is None,
            },
            None => r is None,
        },
{
    match FieldRange::from_str(range) {
        Some(field) => get_string_by_field(delimiter, text, &field),
        None => None,
    }
}

} // verus!
