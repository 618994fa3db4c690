//! Character and string helpers shared by the matchers: conversion of `str`
//! into `char` vectors, ASCII classification, UTF-8 byte offsets, and the
//! Unicode case and class queries that only `std` can answer.
use vstd::prelude::*;
use vstd::utf8::*;

verus! {

broadcast use vstd::utf8::char_is_scalar;

// ---------------------------------------------------------------------------
// Unicode queries answered by std
// ---------------------------------------------------------------------------

/// The characters that `char::to_lowercase` yields for `c`.
pub uninterp spec fn unicode_lowercase(c: char) -> Seq<char>;

/// Whether `char::is_lowercase` holds of `c` (Unicode `Lowercase` property).
pub uninterp spec fn unicode_is_lowercase(c: char) -> bool;

/// Whether `char::is_uppercase` holds of `c` (Unicode `Uppercase` property).
pub uninterp spec fn unicode_is_uppercase(c: char) -> bool;

/// Whether `char::is_numeric` holds of `c` (Unicode general categories `Nd`, `Nl`, `No`).
pub uninterp spec fn unicode_is_numeric(c: char) -> bool;

/// Calls `char::to_lowercase` and collects what it yields.
/// Claimed: the result is `unicode_lowercase(c)`, a function of `c` alone; on
/// ASCII it is the one character that `to_ascii_lowercase` gives (std documents
/// both): 'A'..='Z' move up by 32, the rest stays.
#[verifier::external_body]
pub(crate) fn char_to_lowercase(c: char) -> (r: Vec<char>)
    ensures
        r@ == unicode_lowercase(c),
        'A' <= c <= 'Z' ==> r@.len() == 1 && r@[0] as u32 == c as u32 + 32,
        (c as u32) < 128 && !('A' <= c <= 'Z') ==> r@ == seq![c],
{
    c.to_lowercase().collect()
}

fn chars_vec_eq(a: &Vec<char>, b: &Vec<char>) -> (r: bool)
    ensures
        r == (a@ == b@),
{
    if a.len() != b.len() {
        return false;
    }
    let mut i: usize = 0;
    while i < a.len()
        invariant
            a@.len() == b@.len(),
            i <= a.len(),
            forall|k: int| 0 <= k < i ==> a@[k] == b@[k],
        decreases a.len() - i,
    {
        if a[i] != b[i] {
            return false;
        }
        i += 1;
    }
    assert(a@ =~= b@);
    true
}

/// Unicode case-insensitive equality: both characters lowercase to the same
/// characters.
pub open spec fn spec_eq_lowercase(a: char, b: char) -> bool {
    unicode_lowercase(a) == unicode_lowercase(b)
}

pub fn eq_lowercase(a: char, b: char) -> (r: bool)
    ensures
        r == spec_eq_lowercase(a, b),
{
    let la = char_to_lowercase(a);
    let lb = char_to_lowercase(b);
    chars_vec_eq(&la, &lb)
}

/// Calls `char::is_lowercase`.
/// Claimed: the result is `unicode_is_lowercase(c)`, a function of `c` alone;
/// among ASCII characters exactly 'a'..='z' are lowercase.
#[verifier::external_body]
pub(crate) fn char_is_lowercase(c: char) -> (r: bool)
    ensures
        r == unicode_is_lowercase(c),
        (c as u32) < 128 ==> (r <==> 'a' <= c <= 'z'),
{
    c.is_lowercase()
}

/// Calls `char::is_uppercase`.
/// Claimed: the result is `unicode_is_uppercase(c)`, a function of `c` alone;
/// among ASCII characters exactly 'A'..='Z' are uppercase.
#[verifier::external_body]
pub(crate) fn char_is_uppercase(c: char) -> (r: bool)
    ensures
        r == unicode_is_uppercase(c),
        (c as u32) < 128 ==> (r <==> 'A' <= c <= 'Z'),
{
    c.is_uppercase()
}

/// Calls `char::is_numeric`.
/// Claimed: the result is `unicode_is_numeric(c)`, a function of `c` alone;
/// among ASCII characters exactly '0'..='9' are numeric.
#[verifier::external_body]
pub(crate) fn char_is_numeric(c: char) -> (r: bool)
    ensures
        r == unicode_is_numeric(c),
        (c as u32) < 128 ==> (r <==> '0' <= c <= '9'),
{
    c.is_numeric()
}

/// Calls `String::push`.
/// Claimed (std documents it): `c` is appended to the end of the string.
#[verifier::external_body]
pub(crate) fn string_push(s: &mut String, c: char)
    ensures
        final(s)@ == old(s)@.push(c),
{
    s.push(c);
}

// ---------------------------------------------------------------------------
// str -> chars
// ---------------------------------------------------------------------------

/// The characters of `s`, in order.
pub fn str_to_chars(s: &str) -> (r: Vec<char>)
    ensures
        r@ == s@,
{
    let mut v: Vec<char> = Vec::new();
    for c in it: s.chars()
        invariant
            v@ == it.seq().take(it.index() as int),
    {
        v.push(c);
    }
    v
}

/// Appends the characters of `t` to `s`.
pub fn push_str(s: &mut String, t: &str)
    ensures
        final(s)@ == old(s)@ + t@,
{
    let cs = str_to_chars(t);
    let ghost start = s@;
    let mut i: usize = 0;
    while i < cs.len()
        invariant
            cs@ == t@,
            i <= cs@.len(),
            s@ == start + cs@.take(i as int),
        decreases cs@.len() - i,
    {
        string_push(s, cs[i]);
        assert(cs@.take(i + 1) =~= cs@.take(i as int).push(cs@[i as int]));
        i += 1;
    }
    assert(cs@.take(cs@.len() as int) =~= cs@);
}

/// Whether two strings hold the same characters.
pub fn str_eq(a: &str, b: &str) -> (r: bool)
    ensures
        r == (a@ == b@),
{
    let ca = str_to_chars(a);
    let cb = str_to_chars(b);
    chars_vec_eq(&ca, &cb)
}

/// The text a `Cow<str>` holds.
pub fn cow_str<'a>(c: &'a std::borrow::Cow<'a, str>) -> (r: &'a str)
    ensures
        r@ == c@,
{
    match c {
        std::borrow::Cow::Borrowed(b) => b,
        std::borrow::Cow::Owned(o) => o.as_str(),
    }
}

/// Builds a `String` from the characters `lo..hi` of `cs`.
pub fn chars_range_to_string(cs: &Vec<char>, lo: usize, hi: usize) -> (r: String)
    requires
        lo <= hi <= cs@.len(),
    ensures
        r@ == cs@.subrange(lo as int, hi as int),
{
    let mut s = String::new();
    let mut i: usize = lo;
    while i < hi
        invariant
            lo <= i <= hi <= cs@.len(),
            s@ == cs@.subrange(lo as int, i as int),
        decreases hi - i,
    {
        string_push(&mut s, cs[i]);
        assert(cs@.subrange(lo as int, i + 1) =~= cs@.subrange(lo as int, i as int).push(cs@[i as int]));
        i += 1;
    }
    s
}

/// Builds a `String` holding exactly the given characters.
pub fn chars_to_string(cs: &[char]) -> (r: String)
    ensures
        r@ == cs@,
{
    let mut s = String::new();
    let mut i: usize = 0;
    while i < cs.len()
        invariant
            i <= cs.len(),
            s@ == cs@.take(i as int),
        decreases cs.len() - i,
    {
        string_push(&mut s, cs[i]);
        assert(cs@.take(i + 1) =~= cs@.take(i as int).push(cs@[i as int]));
        i += 1;
    }
    assert(cs@.take(cs.len() as int) =~= cs@);
    s
}

// ---------------------------------------------------------------------------
// ASCII classification
// ---------------------------------------------------------------------------

pub open spec fn spec_is_ascii_char(c: char) -> bool {
    (c as u32) < 128
}

pub open spec fn spec_is_ascii_lower(c: char) -> bool {
    'a' <= c <= 'z'
}

pub open spec fn spec_is_ascii_upper(c: char) -> bool {
    'A' <= c <= 'Z'
}

pub open spec fn spec_is_ascii_digit(c: char) -> bool {
    '0' <= c <= '9'
}

pub open spec fn spec_is_ascii_alpha(c: char) -> bool {
    spec_is_ascii_lower(c) || spec_is_ascii_upper(c)
}

/// ASCII lowercase of `c`: upper-case ASCII letters map to lower case, all
/// other characters are unchanged.
pub open spec fn spec_ascii_lower(c: char) -> char {
    if spec_is_ascii_upper(c) {
        ((c as u32) + 32) as char
    } else {
        c
    }
}

pub fn is_ascii_char(c: char) -> (r: bool)
    ensures
        r == spec_is_ascii_char(c),
{
    (c as u32) < 128
}

pub fn is_ascii_lower(c: char) -> (r: bool)
    ensures
        r == spec_is_ascii_lower(c),
{
    'a' <= c && c <= 'z'
}

pub fn is_ascii_upper(c: char) -> (r: bool)
    ensures
        r == spec_is_ascii_upper(c),
{
    'A' <= c && c <= 'Z'
}

pub fn is_ascii_digit(c: char) -> (r: bool)
    ensures
        r == spec_is_ascii_digit(c),
{
    '0' <= c && c <= '9'
}

pub fn is_ascii_alpha(c: char) -> (r: bool)
    ensures
        r == spec_is_ascii_alpha(c),
{
    is_ascii_lower(c) || is_ascii_upper(c)
}

pub fn ascii_lower(c: char) -> (r: char)
    ensures
        r == spec_ascii_lower(c),
{
    if is_ascii_upper(c) {
        let b: u8 = ((c as u32) + 32) as u8;
        b as char
    } else {
        c
    }
}

/// ASCII case-insensitive equality of two characters.
pub open spec fn spec_eq_ignore_ascii_case(a: char, b: char) -> bool {
    spec_ascii_lower(a) == spec_ascii_lower(b)
}

pub fn eq_ignore_ascii_case(a: char, b: char) -> (r: bool)
    ensures
        r == spec_eq_ignore_ascii_case(a, b),
{
    ascii_lower(a) == ascii_lower(b)
}

// Byte versions

pub open spec fn spec_byte_lower(b: u8) -> u8 {
    if 65 <= b <= 90 {
        (b + 32) as u8
    } else {
        b
    }
}

pub open spec fn spec_byte_upper(b: u8) -> u8 {
    if 97 <= b <= 122 {
        (b - 32) as u8
    } else {
        b
    }
}

pub fn byte_lower(b: u8) -> (r: u8)
    ensures
        r == spec_byte_lower(b),
{
    if 65 <= b && b <= 90 {
        b + 32
    } else {
        b
    }
}

pub fn byte_upper(b: u8) -> (r: u8)
    ensures
        r == spec_byte_upper(b),
{
    if 97 <= b && b <= 122 {
        b - 32
    } else {
        b
    }
}

// ---------------------------------------------------------------------------
// UTF-8 widths and byte offsets
// ---------------------------------------------------------------------------

/// Number of bytes in the UTF-8 encoding of `c`.
pub open spec fn utf8_width(c: char) -> int {
    encode_scalar(c as u32).len() as int
}

/// Number of bytes in the UTF-8 encoding of `s`.
pub open spec fn byte_len(s: Seq<char>) -> int {
    encode_utf8(s).len() as int
}

/// `char::len_utf8`, written out from the UTF-8 ranges.
pub fn char_len_utf8(c: char) -> (r: usize)
    ensures
        r == utf8_width(c),
        1 <= r <= 4,
{
    let u = c as u32;
    if u <= 0x7F {
        1
    } else if u <= 0x7FF {
        2
    } else if u <= 0xFFFF {
        3
    } else {
        4
    }
}

pub proof fn lemma_utf8_width_bounds(c: char)
    ensures
        1 <= utf8_width(c) <= 4,
{
}

pub proof fn lemma_byte_len_append(a: Seq<char>, b: Seq<char>)
    ensures
        encode_utf8(a + b) == encode_utf8(a) + encode_utf8(b),
    decreases a.len(),
{
    if a.len() == 0 {
        assert(a + b =~= b);
        assert(encode_utf8(a) =~= Seq::<u8>::empty());
        assert(encode_utf8(a) + encode_utf8(b) =~= encode_utf8(b));
    } else {
        assert((a + b).drop_first() =~= a.drop_first() + b);
        assert((a + b)[0] == a[0]);
        lemma_byte_len_append(a.drop_first(), b);
        assert(encode_utf8(a + b) =~= encode_scalar(a[0] as u32) + encode_utf8(a.drop_first() + b));
        assert(encode_utf8(a) =~= encode_scalar(a[0] as u32) + encode_utf8(a.drop_first()));
        assert(encode_utf8(a + b) =~= encode_utf8(a) + encode_utf8(b));
    }
}

pub proof fn lemma_byte_len_push(s: Seq<char>, c: char)
    ensures
        byte_len(s.push(c)) == byte_len(s) + utf8_width(c),
{
    lemma_byte_len_append(s, seq![c]);
    assert(s.push(c) =~= s + seq![c]);
    assert(seq![c].drop_first() =~= Seq::<char>::empty());
    assert(encode_utf8(seq![c]) =~= encode_scalar(c as u32) + encode_utf8(Seq::<char>::empty()));
    assert(encode_utf8(Seq::<char>::empty()) =~= Seq::<u8>::empty());
}

pub proof fn lemma_byte_len_mono(s: Seq<char>, i: int, j: int)
    requires
        0 <= i <= j <= s.len(),
    ensures
        byte_len(s.take(i)) + (j - i) <= byte_len(s.take(j)),
        byte_len(s.take(j)) <= byte_len(s.take(i)) + 4 * (j - i),
    decreases j - i,
{
    if i < j {
        lemma_byte_len_mono(s, i, j - 1);
        assert(s.take(j) =~= s.take(j - 1).push(s[j - 1]));
        lemma_byte_len_push(s.take(j - 1), s[j - 1]);
        lemma_utf8_width_bounds(s[j - 1]);
    }
}

/// Number of bytes of `s` (`str::len`).
pub fn str_byte_len(s: &str) -> (r: usize)
    ensures
        r == byte_len(s@),
{
    s.as_bytes().len()
}

/// Byte offset, in `s`, of the start of each character of `s`, plus the total
/// byte length at the end: `r[k] == byte_len(s.take(k))` for `k` in `0..=s.len()`.
pub fn char_byte_offsets(s: &str) -> (r: Vec<usize>)
    ensures
        r@.len() == s@.len() + 1,
        forall|k: int| 0 <= k <= s@.len() ==> #[trigger] r@[k] == byte_len(s@.take(k)),
        r@[s@.len() as int] == s.len(),
{
    let cs = str_to_chars(s);
    let total = s.as_bytes().len();
    let mut offsets: Vec<usize> = Vec::new();
    let mut off: usize = 0;
    let mut k: usize = 0;
    offsets.push(0);
    proof {
        assert(s@.take(0) =~= Seq::<char>::empty());
        assert(encode_utf8(Seq::<char>::empty()) =~= Seq::<u8>::empty());
        assert(s@.take(s@.len() as int) =~= s@);
    }
    while k < cs.len()
        invariant
            cs@ == s@,
            k <= cs.len(),
            offsets@.len() == k + 1,
            off == byte_len(s@.take(k as int)),
            forall|q: int| 0 <= q <= k ==> #[trigger] offsets@[q] == byte_len(s@.take(q)),
            byte_len(s@) == total,
        decreases cs.len() - k,
    {
        proof {
            assert(s@.take(k + 1) =~= s@.take(k as int).push(s@[k as int]));
            lemma_byte_len_push(s@.take(k as int), s@[k as int]);
            lemma_byte_len_mono(s@, k + 1, s@.len() as int);
            assert(s@.take(s@.len() as int) =~= s@);
        }
        let w = char_len_utf8(cs[k]);
        off = off + w;
        offsets.push(off);
        k += 1;
    }
    proof {
        assert(s@.take(s@.len() as int) =~= s@);
    }
    offsets
}

/// Whether some character of `s` starts at byte `b`, from the byte offsets of
/// its characters.
pub fn has_boundary(offs: &Vec<usize>, b: usize, Ghost(s): Ghost<Seq<char>>) -> (r: bool)
    requires
        offs@.len() == s.len() + 1,
        forall|k: int| 0 <= k <= s.len() ==> #[trigger] offs@[k] == byte_len(s.take(k)),
    ensures
        r == crate::is_boundary(s, b as int),
{
    let mut k: usize = 0;
    while k < offs.len()
        invariant
            offs@.len() == s.len() + 1,
            forall|q: int| 0 <= q <= s.len() ==> #[trigger] offs@[q] == byte_len(s.take(q)),
            k <= offs@.len(),
            forall|q: int| 0 <= q < k ==> byte_len(#[trigger] s.take(q)) != b,
        decreases offs@.len() - k,
    {
        if offs[k] == b {
            proof {
                assert(byte_len(s.take(k as int)) == b);
            }
            return true;
        }
        k += 1;
    }
    false
}

} // verus!
