//! Fuzzy-finder core: matchers, match engines, ranking and item helpers.
use vstd::prelude::*;
use std::borrow::Cow;

pub mod binds;
pub mod text;
pub mod fuzzy_matcher;
pub mod item;
pub mod engine;
pub mod display;
pub mod field;
pub mod helper;
pub mod theme;
pub mod output;
pub mod session;

use crate::text::{byte_len, char_byte_offsets, lemma_byte_len_mono};

verus! {

broadcast use vstd::utf8::char_is_scalar;

//------------------------------------------------------------------------------
/// Represents how a query matches an item
#[derive(Debug, Clone)]
pub enum Matches {
    /// No matches
    NoMatches,
    /// Matches at specific character indices
    CharIndices(Vec<usize>),
    /// Matches in a character range (start, end)
    CharRange(usize, usize),
    /// Matches in a byte range (start, end)
    ByteRange(usize, usize),
}

impl Default for Matches {
    fn default() -> (r: Self)
        ensures
            r is NoMatches,
    {
        Matches::NoMatches
    }
}

//------------------------------------------------------------------------------
/// Case sensitivity mode for matching
#[derive(Eq, PartialEq, Debug, Copy, Clone, Structural)]
pub enum CaseMatching {
    /// Case-sensitive matching
    Respect,
    /// Case-insensitive matching
    Ignore,
    /// Smart case: case-insensitive unless query contains uppercase
    Smart,
}

impl Default for CaseMatching {
    fn default() -> (r: Self)
        ensures
            r == CaseMatching::Smart,
    {
        CaseMatching::Smart
    }
}

/// Typo tolerance setting
#[derive(Eq, PartialEq, Debug, Copy, Clone, Structural)]
pub enum Typos {
    /// No typo tolerance
    Disabled,
    /// Adaptive tolerance derived from the query length
    Smart,
    /// A fixed number of typos
    Fixed(usize),
}

impl Default for Typos {
    fn default() -> (r: Self)
        ensures
            r == Typos::Disabled,
    {
        Typos::Disabled
    }
}

impl From<usize> for Typos {
    fn from(n: usize) -> (r: Self) {
        if n == 0 {
            Typos::Disabled
        } else {
            Typos::Fixed(n)
        }
    }
}

impl vstd::std_specs::convert::FromSpecImpl<usize> for Typos {
    open spec fn obeys_from_spec() -> bool {
        true
    }

    open spec fn from_spec(n: usize) -> Typos {
        if n == 0 {
            Typos::Disabled
        } else {
            Typos::Fixed(n)
        }
    }
}

//------------------------------------------------------------------------------
/// Raw match measurements used for ranking
#[derive(Debug, Copy, Clone, Default, PartialEq, Eq, Hash, Structural)]
pub struct Rank {
    /// The match score
    pub score: i32,
    /// Character index where the match begins
    pub begin: i32,
    /// Character index where the match ends
    pub end: i32,
    /// Byte length of the item text
    pub length: i32,
    /// Position of the item in the input
    pub index: i32,
    /// Byte offset just past the last path separator in the item text
    pub path_name_offset: i32,
}

/// Represents the range of a match in an item
#[derive(PartialEq, Eq, Clone, Debug)]
pub enum MatchRange {
    /// Range of bytes (start, end)
    ByteRange(usize, usize),
    /// Range of characters (start, end)
    CharRange(usize, usize),
    /// Individual character indices that matched
    Chars(Vec<usize>),
}

/// The matched range as a plain mathematical value.
pub enum SpecMatchRange {
    ByteRange(usize, usize),
    CharRange(usize, usize),
    Chars(Seq<usize>),
}

impl View for MatchRange {
    type V = SpecMatchRange;

    open spec fn view(&self) -> SpecMatchRange {
        match self {
            MatchRange::ByteRange(s, e) => SpecMatchRange::ByteRange(*s, *e),
            MatchRange::CharRange(s, e) => SpecMatchRange::CharRange(*s, *e),
            MatchRange::Chars(v) => SpecMatchRange::Chars(v@),
        }
    }
}

/// Result of matching a query against an item
#[derive(Clone, Debug)]
pub struct MatchResult {
    /// The rank/score of this match
    pub rank: Rank,
    /// The range where the match occurred
    pub matched_range: MatchRange,
}

/// Number of characters of `s` that start strictly before byte offset `b`.
pub open spec fn chars_before_byte(s: Seq<char>, b: int) -> int
    decreases s.len(),
{
    if s.len() == 0 {
        0
    } else {
        chars_before_byte(s.drop_last(), b) + (if byte_len(s.drop_last()) < b { 1int } else { 0int })
    }
}

/// `b` is the byte offset of a character boundary of `s`.
pub open spec fn is_boundary(s: Seq<char>, b: int) -> bool {
    exists|k: int| 0 <= k <= s.len() && byte_len(#[trigger] s.take(k)) == b
}

/// The consecutive integers `lo..hi`.
pub open spec fn int_range(lo: int, hi: int) -> Seq<usize> {
    Seq::new((if hi > lo { hi - lo } else { 0 }) as nat, |i: int| (lo + i) as usize)
}

/// Character indices covered by a match range over `text`.
pub open spec fn spec_range_char_indices(r: SpecMatchRange, text: Seq<char>) -> Seq<usize> {
    match r {
        SpecMatchRange::ByteRange(start, end) => int_range(
            chars_before_byte(text, start as int),
            chars_before_byte(text, end as int),
        ),
        SpecMatchRange::CharRange(start, end) => int_range(start as int, end as int),
        SpecMatchRange::Chars(v) => v,
    }
}

/// Counts the characters whose starting byte offset is below `b`, given the
/// byte offsets of all characters.
pub fn count_chars_before(offsets: &Vec<usize>, b: usize, Ghost(s): Ghost<Seq<char>>) -> (r: usize)
    requires
        offsets@.len() == s.len() + 1,
        forall|k: int| 0 <= k <= s.len() ==> #[trigger] offsets@[k] == byte_len(s.take(k)),
    ensures
        r == chars_before_byte(s, b as int),
        r <= s.len(),
{
    let n = offsets.len() - 1;
    let mut k: usize = 0;
    while k < n && offsets[k] < b
        invariant
            n == s.len(),
            k <= n,
            offsets@.len() == s.len() + 1,
            forall|q: int| 0 <= q <= s.len() ==> #[trigger] offsets@[q] == byte_len(s.take(q)),
            forall|q: int| 0 <= q < k ==> byte_len(#[trigger] s.take(q)) < b,
        decreases n - k,
    {
        k += 1;
    }
    proof {
        lemma_chars_before_byte(s, b as int, k as int);
    }
    k
}

pub proof fn lemma_chars_before_byte(s: Seq<char>, b: int, k: int)
    requires
        0 <= k <= s.len(),
        forall|q: int| 0 <= q < k ==> byte_len(#[trigger] s.take(q)) < b,
        k == s.len() || byte_len(s.take(k)) >= b,
    ensures
        chars_before_byte(s, b) == k,
    decreases s.len(),
{
    if s.len() > 0 {
        let t = s.drop_last();
        assert forall|q: int| 0 <= q <= t.len() implies t.take(q) == #[trigger] s.take(q) by {
            assert(t.take(q) =~= s.take(q));
        }
        assert forall|q: int| 0 <= q < k && q <= t.len() implies byte_len(#[trigger] t.take(q)) < b by {
            assert(t.take(q) =~= s.take(q));
        }
        assert(s.take(s.len() - 1) =~= t);
        if k == s.len() {
            lemma_chars_before_byte(t, b, k - 1);
        } else {
            lemma_chars_before_byte(t, b, k);
            lemma_take_mono(s, k, t.len() as int);
        }
    }
}

/// Between none and all of the characters start before any byte offset.
pub proof fn lemma_chars_before_range(s: Seq<char>, b: int)
    ensures
        0 <= chars_before_byte(s, b) <= s.len(),
    decreases s.len(),
{
    if s.len() > 0 {
        lemma_chars_before_range(s.drop_last(), b);
    }
}

/// More bytes hold at least as many characters.
pub proof fn lemma_chars_before_mono(s: Seq<char>, a: int, b: int)
    requires
        a <= b,
    ensures
        chars_before_byte(s, a) <= chars_before_byte(s, b),
    decreases s.len(),
{
    if s.len() > 0 {
        lemma_chars_before_mono(s.drop_last(), a, b);
    }
}

pub proof fn lemma_take_mono(s: Seq<char>, i: int, j: int)
    requires
        0 <= i <= j <= s.len(),
    ensures
        byte_len(s.take(i)) <= byte_len(s.take(j)),
{
    lemma_byte_len_mono(s, i, j);
}

pub proof fn encode_utf8_empty_len() -> (b: bool)
    ensures
        b,
        byte_len(Seq::<char>::empty()) == 0,
{
    assert(vstd::utf8::encode_utf8(Seq::<char>::empty()) =~= Seq::<u8>::empty());
    true
}

impl MatchResult {
    /// Converts the match range to character indices
    pub fn range_char_indices(&self, text: &str) -> (r: Vec<usize>)
        requires
            self.matched_range matches MatchRange::ByteRange(s, e) ==> s <= e
                && is_boundary(text@, s as int) && is_boundary(text@, e as int),
        ensures
            r@ == spec_range_char_indices(self.matched_range@, text@),
    {
        match &self.matched_range {
            MatchRange::ByteRange(start, end) => {
                let offsets = char_byte_offsets(text);
                let first = count_chars_before(&offsets, *start, Ghost(text@));
                let last = count_chars_before(&offsets, *end, Ghost(text@));
                collect_range(first, last)
            },
            MatchRange::CharRange(start, end) => collect_range(*start, *end),
            MatchRange::Chars(vec) => vec.clone(),
        }
    }
}

/// `(lo..hi).collect()`
pub fn collect_range(lo: usize, hi: usize) -> (r: Vec<usize>)
    ensures
        r@ == int_range(lo as int, hi as int),
{
    let mut v: Vec<usize> = Vec::new();
    if hi <= lo {
        assert(v@ =~= int_range(lo as int, hi as int));
        return v;
    }
    let mut i = lo;
    while i < hi
        invariant
            lo <= i <= hi,
            v@ == int_range(lo as int, i as int),
        decreases hi - i,
    {
        v.push(i);
        assert(v@ =~= int_range(lo as int, i + 1));
        i += 1;
    }
    assert(v@ =~= int_range(lo as int, hi as int));
    v
}

//------------------------------------------------------------------------------
/// An item that can be searched and selected.
pub trait SkimItem {
    /// The text the item is matched against.
    spec fn spec_text(&self) -> Seq<char>;

    /// The byte ranges of the text on which matching is restricted, if any.
    spec fn spec_matching_ranges(&self) -> Option<Seq<(usize, usize)>>;

    /// The text used for matching
    fn text(&self) -> (r: Cow<'_, str>)
        ensures
            r@ == self.spec_text();

    /// The byte ranges on which to perform matching; each, cut to the text's
    /// length, runs forwards between character boundaries.
    fn get_matching_ranges(&self) -> (r: Option<&[(usize, usize)]>)
        ensures
            match r {
                Some(s) => self.spec_matching_ranges() == Some(s@) && ranges_fit(self.spec_text(), s@),
                None => self.spec_matching_ranges() is None,
            },
    ;
}

impl SkimItem for String {
    open spec fn spec_text(&self) -> Seq<char> {
        self@
    }

    open spec fn spec_matching_ranges(&self) -> Option<Seq<(usize, usize)>> {
        None
    }

    fn text(&self) -> (r: Cow<'_, str>) {
        Cow::Borrowed(self.as_str())
    }

    fn get_matching_ranges(&self) -> (r: Option<&[(usize, usize)]>) {
        None
    }
}

/// Each range, cut to the byte length of `text`, runs forwards between
/// character boundaries.
pub open spec fn ranges_fit(text: Seq<char>, rs: Seq<(usize, usize)>) -> bool {
    forall|k: int| 0 <= k < rs.len() ==> range_fits_clamped(#[trigger] rs[k], text)
}

/// The range, cut to the byte length of `text`, runs forwards between
/// character boundaries.
pub open spec fn range_fits_clamped(r: (usize, usize), text: Seq<char>) -> bool {
    let s = if r.0 <= byte_len(text) { r.0 as int } else { byte_len(text) };
    let e = if r.1 <= byte_len(text) { r.1 as int } else { byte_len(text) };
    s <= e && is_boundary(text, s) && is_boundary(text, e)
}

/// A byte range runs forwards between character boundaries of `text`.
pub open spec fn range_fits(r: SpecMatchRange, text: Seq<char>) -> bool {
    match r {
        SpecMatchRange::ByteRange(s, e) => s <= e && is_boundary(text, s as int) && is_boundary(text, e as int),
        _ => true,
    }
}

/// The view of a match result.
pub open spec fn result_view(r: Option<MatchResult>) -> Option<(Rank, SpecMatchRange)> {
    match r {
        Some(m) => Some((m.rank, m.matched_range@)),
        None => None,
    }
}

/// The matching ranges as plain values.
pub open spec fn ranges_view(r: Option<&[(usize, usize)]>) -> Option<Seq<(usize, usize)>> {
    match r {
        Some(s) => Some(s@),
        None => None,
    }
}

/// A matching engine that can match queries against items
pub trait MatchEngine {
    /// What the engine answers for an item with the given text and matching ranges.
    spec fn spec_match(&self, text: Seq<char>, ranges: Option<Seq<(usize, usize)>>) -> Option<(Rank, SpecMatchRange)>;

    /// Matches an item's text, restricted to the given byte ranges when there
    /// are any, against the query.
    fn match_text(&self, text: &str, ranges: Option<&[(usize, usize)]>) -> (r: Option<MatchResult>)
        requires
            ranges matches Some(rs) ==> ranges_fit(text@, rs@),
        ensures
            result_view(r) == self.spec_match(text@, ranges_view(ranges)),
            r matches Some(m) ==> range_fits(m.matched_range@, text@),
    ;

    /// Matches an item against the query, returning a result if matched
    fn match_item(&self, item: &dyn SkimItem) -> (r: Option<MatchResult>)
        ensures
            result_view(r) == self.spec_match(item.spec_text(), item.spec_matching_ranges()),
            r matches Some(m) ==> range_fits(m.matched_range@, item.spec_text()),
    {
        let text = item.text();
        let ranges = item.get_matching_ranges();
        self.match_text(crate::text::cow_str(&text), ranges)
    }

    /// The description `describe` gives.
    spec fn spec_describe(&self) -> Seq<char>;

    /// A short human-readable description of the engine
    fn describe(&self) -> (r: String)
        ensures
            r@ == self.spec_describe(),
    ;
}

/// A selector that determines whether an item should be "pre-selected" in multi-selection mode
pub trait Selector {
    /// Returns true if the item at the given index should be pre-selected
    fn should_select(&self, index: usize, item: &dyn SkimItem) -> bool;
}

/// Context information for generating item previews
pub struct PreviewContext<'a> {
    /// The current search query
    pub query: &'a str,
    /// The current command query (for interactive mode)
    pub cmd_query: &'a str,
    /// Width of the preview window
    pub width: usize,
    /// Height of the preview window
    pub height: usize,
    /// Index of the current item
    pub current_index: usize,
    /// Text of the current selection
    pub current_selection: &'a str,
    /// selected item indices (may or may not include current item)
    pub selected_indices: &'a [usize],
    /// selected item texts (may or may not include current item)
    pub selections: &'a [&'a str],
}

} // verus!
