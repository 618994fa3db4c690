//! The split engine: the query and the item are each cut at a delimiter, and
//! the two parts are matched separately.
use vstd::prelude::*;

use crate::engine::andor::{insert_sorted_unique, lemma_is_sorted_elements, sorted_elements, strictly_increasing};
use crate::fuzzy_matcher::MatchIndices;
use crate::text::{chars_range_to_string, push_str, str_to_chars};
use crate::{
    range_fits, ranges_view, result_view, spec_range_char_indices, MatchEngine, MatchRange, MatchResult, Rank, SpecMatchRange,
};

verus! {

/// The position of the first `c` in `s` at or after `k`.
pub open spec fn find_char_from(s: Seq<char>, c: char, k: int) -> Option<int>
    decreases s.len() - k,
{
    if k < 0 || k >= s.len() {
        None
    } else if s[k] == c {
        Some(k)
    } else {
        find_char_from(s, c, k + 1)
    }
}

/// The indices moved by `off` (wrapping, as `usize` addition does in a
/// release build).
pub open spec fn shifted(v: Seq<usize>, off: usize) -> Seq<usize> {
    v.map_values(|i: usize| vstd::wrapping::usize_specs::wrapping_add(i, off))
}

/// What the split engine answers, given what its two engines answer on the
/// parts before and after the first delimiter at `d`: the rank of the first
/// part, and the character indices of both, the second moved past the
/// delimiter, in increasing order.
pub open spec fn split_combine(
    d: int,
    before: Seq<char>,
    after: Seq<char>,
    rb: Option<(Rank, SpecMatchRange)>,
    ra: Option<(Rank, SpecMatchRange)>,
) -> Option<(Rank, SpecMatchRange)> {
    match (rb, ra) {
        (Some(b), Some(a)) => Some(
            (
                b.0,
                SpecMatchRange::Chars(
                    sorted_elements(
                        spec_range_char_indices(b.1, before).to_set().union(
                            shifted(spec_range_char_indices(a.1, after), (d + 1) as usize).to_set(),
                        ),
                    ),
                ),
            ),
        ),
        _ => None,
    }
}

/// Engine that matches by splitting query and item on a delimiter
pub struct SplitMatchEngine {
    /// The engine to match the "before delimiter" part
    before_engine: Box<dyn MatchEngine + 'static>,
    /// The engine to match the "after delimiter" part
    after_engine: Box<dyn MatchEngine + 'static>,
    /// The delimiter character used for splitting
    delimiter: char,
}

impl SplitMatchEngine {
    pub closed spec fn spec_delimiter(&self) -> char {
        self.delimiter
    }

    /// The description of the engine for the part before the delimiter.
    pub closed spec fn spec_before_describe(&self) -> Seq<char> {
        self.before_engine.spec_describe()
    }

    /// The description of the engine for the part after the delimiter.
    pub closed spec fn spec_after_describe(&self) -> Seq<char> {
        self.after_engine.spec_describe()
    }

    /// What the engine for the part before the delimiter answers on `t`.
    pub closed spec fn spec_before_match(&self, t: Seq<char>) -> Option<(Rank, SpecMatchRange)> {
        self.before_engine.spec_match(t, None)
    }

    /// What the engine for the part after the delimiter answers on `t`.
    pub closed spec fn spec_after_match(&self, t: Seq<char>) -> Option<(Rank, SpecMatchRange)> {
        self.after_engine.spec_match(t, None)
    }

    /// Creates a new split match engine
    pub fn new(
        before_engine: Box<dyn MatchEngine + 'static>,
        after_engine: Box<dyn MatchEngine + 'static>,
        delimiter: char,
    ) -> (r: Self)
        ensures
            r.spec_delimiter() == delimiter,
    {
        SplitMatchEngine { before_engine, after_engine, delimiter }
    }

    /// The answer for an item text (its matching ranges play no part): `None`
    /// without a delimiter, else what `split_combine` makes of the answers of
    /// the two engines on the text before and after the first delimiter.
    pub open spec fn spec_match_split(&self, text: Seq<char>) -> Option<(Rank, SpecMatchRange)> {
        match find_char_from(text, self.spec_delimiter(), 0) {
            None => None,
            Some(d) => {
                let before = text.take(d);
                let after = text.skip(d + 1);
                split_combine(
                    d,
                    before,
                    after,
                    self.spec_before_match(before),
                    self.spec_after_match(after),
                )
            },
        }
    }
}

/// Adds every index of `idx` to an increasing vector.
fn insert_all(v: &mut Vec<usize>, idx: &Vec<usize>)
    requires
        strictly_increasing(old(v)@),
    ensures
        strictly_increasing(final(v)@),
        final(v)@.to_set() == old(v)@.to_set().union(idx@.to_set()),
{
    let ghost before = v@;
    let mut q: usize = 0;
    while q < idx.len()
        invariant
            q <= idx@.len(),
            strictly_increasing(v@),
            v@.to_set() == before.to_set().union(idx@.take(q as int).to_set()),
        decreases idx@.len() - q,
    {
        insert_sorted_unique(v, idx[q]);
        proof {
            assert(idx@.take(q + 1) =~= idx@.take(q as int).push(idx@[q as int]));
            assert forall|y: usize| idx@.take(q + 1).to_set().contains(y) == idx@.take(q as int).to_set().insert(
                idx@[q as int],
            ).contains(y) by {
                vstd::seq_lib::lemma_seq_contains_after_push(idx@.take(q as int), idx@[q as int], y);
            }
            assert(idx@.take(q + 1).to_set() =~= idx@.take(q as int).to_set().insert(idx@[q as int]));
            assert(v@.to_set() =~= before.to_set().union(idx@.take(q + 1).to_set()));
        }
        q += 1;
    }
    assert(idx@.take(idx@.len() as int) =~= idx@);
}

impl MatchEngine for SplitMatchEngine {
    open spec fn spec_match(&self, text: Seq<char>, ranges: Option<Seq<(usize, usize)>>) -> Option<(Rank, SpecMatchRange)> {
        self.spec_match_split(text)
    }

    fn match_text(&self, text: &str, ranges: Option<&[(usize, usize)]>) -> (r: Option<MatchResult>) {
        let cs = str_to_chars(text);
        let mut d: usize = 0;
        while d < cs.len() && cs[d] != self.delimiter
            invariant
                cs@ == text@,
                d <= cs@.len(),
                find_char_from(text@, self.spec_delimiter(), 0) == find_char_from(
                    text@,
                    self.spec_delimiter(),
                    d as int,
                ),
            decreases cs@.len() - d,
        {
            d += 1;
        }
        if d >= cs.len() {
            return None;
        }
        let before = chars_range_to_string(&cs, 0, d);
        let after = chars_range_to_string(&cs, d + 1, cs.len());
        proof {
            assert(before@ =~= text@.take(d as int));
            assert(after@ =~= text@.skip(d + 1));
        }
        let br = self.before_engine.match_text(before.as_str(), None);
        let before_result = match br {
            Some(m) => m,
            None => return None,
        };
        let after_result = match self.after_engine.match_text(after.as_str(), None) {
            Some(m) => m,
            None => return None,
        };
        let before_indices = before_result.range_char_indices(before.as_str());
        let after_local = after_result.range_char_indices(after.as_str());
        let offset = d + 1;
        let mut after_indices: MatchIndices = Vec::new();
        let mut q: usize = 0;
        while q < after_local.len()
            invariant
                q <= after_local@.len(),
                after_indices@ == shifted(after_local@, offset).take(q as int),
            decreases after_local@.len() - q,
        {
            after_indices.push(after_local[q].wrapping_add(offset));
            assert(shifted(after_local@, offset).take(q + 1) =~= shifted(after_local@, offset).take(q as int).push(
                vstd::wrapping::usize_specs::wrapping_add(after_local@[q as int], offset),
            ));
            q += 1;
        }
        assert(after_indices@ =~= shifted(after_local@, offset));
        let mut combined: MatchIndices = Vec::new();
        assert(combined@.to_set() =~= Set::<usize>::empty());
        insert_all(&mut combined, &before_indices);
        insert_all(&mut combined, &after_indices);
        proof {
            lemma_is_sorted_elements(combined@);
            assert(combined@.to_set() =~= before_indices@.to_set().union(after_indices@.to_set()));
        }
        Some(MatchResult { rank: before_result.rank, matched_range: MatchRange::Chars(combined) })
    }

    open spec fn spec_describe(&self) -> Seq<char> {
        "(Split["@ + seq![self.spec_delimiter()] + "]: "@ + self.spec_before_describe() + " | "@
            + self.spec_after_describe() + ")"@
    }

    fn describe(&self) -> (r: String) {
        proof {
            reveal_strlit("(Split[");
            reveal_strlit("]: ");
            reveal_strlit(" | ");
            reveal_strlit(")");
        }
        let mut s = "(Split[".to_owned();
        let mut d = String::new();
        crate::text::string_push(&mut d, self.delimiter);
        push_str(&mut s, d.as_str());
        push_str(&mut s, "]: ");
        let b = self.before_engine.describe();
        push_str(&mut s, b.as_str());
        push_str(&mut s, " | ");
        let a = self.after_engine.describe();
        push_str(&mut s, a.as_str());
        push_str(&mut s, ")");
        proof {
            assert(d@ =~= seq![self.delimiter]);
            assert(s@ =~= self.spec_describe());
        }
        s
    }
}

/// Cuts a query at the first delimiter into the parts before and after it,
/// `None` when the delimiter does not occur.
pub fn split_query(query: &str, delimiter: char) -> (r: Option<(String, String)>)
    ensures
        match find_char_from(query@, delimiter, 0) {
            None => r is None,
            Some(d) => r matches Some((b, a)) && b@ == query@.take(d) && a@ == query@.skip(d + 1),
        },
{
    let cs = str_to_chars(query);
    let mut d: usize = 0;
    while d < cs.len() && cs[d] != delimiter
        invariant
            cs@ == query@,
            d <= cs@.len(),
            find_char_from(query@, delimiter, 0) == find_char_from(query@, delimiter, d as int),
        decreases cs@.len() - d,
    {
        d += 1;
    }
    if d >= cs.len() {
        return None;
    }
    let before = chars_range_to_string(&cs, 0, d);
    let after = chars_range_to_string(&cs, d + 1, cs.len());
    proof {
        assert(before@ =~= query@.take(d as int));
        assert(after@ =~= query@.skip(d + 1));
    }
    Some((before, after))
}

} // verus!
