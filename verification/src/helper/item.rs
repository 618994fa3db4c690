//! The default item: ANSI codes, transformed and matching fields, hidden
//! fields, and the text processing they need.
use vstd::prelude::*;

use crate::engine::andor::{insert_sorted_unique, lemma_is_sorted_elements, sorted_elements, strictly_increasing};
use crate::text::{byte_len, char_byte_offsets, is_ascii_alpha, spec_is_ascii_alpha, str_to_chars, string_push};
use crate::field::{
    field_ranges, get_string_by_field, matching_spans, parse_matching_fields, parse_transform_fields,
    spec_string_by_field, transform_text, Delimiter, FieldRange,
};
use crate::fuzzy_matcher::arinae::atom::memchr_first;
use crate::text::{lemma_byte_len_append, push_str, str_byte_len};
use crate::{collect_range, int_range, is_boundary, range_fits_clamped, ranges_fit, Matches, SkimItem};
use std::borrow::Cow;
use vstd::utf8::encode_utf8;

verus! {

//------------------------------------------------------------------------------
// Stripping ANSI escape sequences

/// The end (exclusive) of a CSI sequence body starting at `j`: just after the
/// first ASCII letter, or the end of the text.
pub open spec fn csi_end(cs: Seq<char>, j: int) -> int
    decreases cs.len() - j,
{
    if j < 0 || j >= cs.len() {
        cs.len() as int
    } else if spec_is_ascii_alpha(cs[j]) {
        j + 1
    } else {
        csi_end(cs, j + 1)
    }
}

/// The end (exclusive) of an OSC sequence body starting at `j`: just after a
/// BEL, or after an `ESC \`, or the end of the text.
pub open spec fn osc_end(cs: Seq<char>, j: int) -> int
    decreases cs.len() - j,
{
    if j < 0 || j >= cs.len() {
        cs.len() as int
    } else if cs[j] == '\x07' {
        j + 1
    } else if cs[j] == '\x1b' && j + 1 < cs.len() && cs[j + 1] == '\\' {
        j + 2
    } else {
        osc_end(cs, j + 1)
    }
}

pub proof fn lemma_csi_end(cs: Seq<char>, j: int)
    requires
        0 <= j <= cs.len(),
    ensures
        j <= csi_end(cs, j) <= cs.len(),
    decreases cs.len() - j,
{
    if j < cs.len() {
        lemma_csi_end(cs, j + 1);
    }
}

pub proof fn lemma_osc_end(cs: Seq<char>, j: int)
    requires
        0 <= j <= cs.len(),
    ensures
        j <= osc_end(cs, j) <= cs.len(),
    decreases cs.len() - j,
{
    if j < cs.len() {
        lemma_osc_end(cs, j + 1);
    }
}

/// The end (exclusive) of the escape sequence whose ESC is at `i`: `ESC [`
/// runs to the first ASCII letter, `ESC ]` to a BEL or `ESC \`, `ESC (`, `ESC
/// )`, `ESC #` and `ESC %` take one more character, any other `ESC x` is two
/// characters, and a lone ESC at the end is one.
pub open spec fn escape_end(cs: Seq<char>, i: int) -> int {
    if i + 1 >= cs.len() {
        i + 1
    } else {
        let n = cs[i + 1];
        if n == '[' {
            csi_end(cs, i + 2)
        } else if n == ']' {
            osc_end(cs, i + 2)
        } else if n == '(' || n == ')' || n == '#' || n == '%' {
            if i + 3 <= cs.len() {
                i + 3
            } else {
                cs.len() as int
            }
        } else {
            i + 2
        }
    }
}

pub proof fn lemma_escape_end(cs: Seq<char>, i: int)
    requires
        0 <= i < cs.len(),
    ensures
        i < escape_end(cs, i) <= cs.len(),
{
    if i + 1 < cs.len() {
        lemma_csi_end(cs, i + 2);
        lemma_osc_end(cs, i + 2);
    }
}

/// The indices of the characters from `i` on that are not part of an escape
/// sequence.
pub open spec fn kept_from(cs: Seq<char>, i: int) -> Seq<int>
    decreases cs.len() - i,
{
    if i < 0 || i >= cs.len() {
        Seq::empty()
    } else if cs[i] == '\x1b' {
        proof {
            lemma_escape_end(cs, i);
        }
        kept_from(cs, escape_end(cs, i))
    } else {
        seq![i] + kept_from(cs, i + 1)
    }
}

/// The text without its escape sequences.
pub open spec fn spec_strip_ansi(cs: Seq<char>) -> Seq<char> {
    kept_from(cs, 0).map_values(|k: int| cs[k])
}

/// `cs` holds no ESC character.
pub open spec fn no_escape(cs: Seq<char>) -> bool {
    forall|k: int| 0 <= k < cs.len() ==> #[trigger] cs[k] != '\x1b'
}

proof fn lemma_kept_all(cs: Seq<char>, i: int)
    requires
        no_escape(cs),
        0 <= i <= cs.len(),
    ensures
        kept_from(cs, i) == Seq::new((cs.len() - i) as nat, |k: int| i + k),
    decreases cs.len() - i,
{
    if i < cs.len() {
        lemma_kept_all(cs, i + 1);
        assert(kept_from(cs, i) =~= Seq::new((cs.len() - i) as nat, |k: int| i + k));
    } else {
        assert(kept_from(cs, i) =~= Seq::new((cs.len() - i) as nat, |k: int| i + k));
    }
}

proof fn lemma_kept_not_escape(cs: Seq<char>, i: int)
    requires
        0 <= i,
    ensures
        forall|q: int|
            0 <= q < kept_from(cs, i).len() ==> 0 <= #[trigger] kept_from(cs, i)[q] < cs.len() && cs[kept_from(cs, i)[q]]
                != '\x1b',
    decreases cs.len() - i,
{
    if i < cs.len() {
        if cs[i] == '\x1b' {
            lemma_escape_end(cs, i);
            lemma_kept_not_escape(cs, escape_end(cs, i));
            assert(kept_from(cs, i) == kept_from(cs, escape_end(cs, i)));
        } else {
            lemma_kept_not_escape(cs, i + 1);
            assert forall|q: int| 0 <= q < kept_from(cs, i).len() implies 0 <= #[trigger] kept_from(cs, i)[q] < cs.len()
                && cs[kept_from(cs, i)[q]] != '\x1b' by {
                if q > 0 {
                    assert(kept_from(cs, i)[q] == kept_from(cs, i + 1)[q - 1]);
                }
            }
        }
    }
}

/// The positions that stripping keeps rise strictly, each at or after the
/// position the scan starts from.
pub proof fn lemma_kept_increasing(cs: Seq<char>, i: int)
    requires
        0 <= i,
    ensures
        forall|q: int| 0 <= q < kept_from(cs, i).len() ==> i <= #[trigger] kept_from(cs, i)[q],
        forall|p: int, q: int|
            0 <= p < q < kept_from(cs, i).len() ==> #[trigger] kept_from(cs, i)[p] < #[trigger] kept_from(cs, i)[q],
    decreases cs.len() - i,
{
    if i < cs.len() {
        if cs[i] == '\x1b' {
            lemma_escape_end(cs, i);
            lemma_kept_increasing(cs, escape_end(cs, i));
            assert(kept_from(cs, i) == kept_from(cs, escape_end(cs, i)));
        } else {
            lemma_kept_increasing(cs, i + 1);
            let k = kept_from(cs, i);
            let t = kept_from(cs, i + 1);
            assert(k == seq![i] + t);
            assert forall|q: int| 0 <= q < k.len() implies i <= #[trigger] k[q] by {
                if q > 0 {
                    assert(k[q] == t[q - 1]);
                }
            }
            assert forall|p: int, q: int| 0 <= p < q < k.len() implies #[trigger] k[p] < #[trigger] k[q] by {
                assert(k[q] == t[q - 1]);
                if p > 0 {
                    assert(k[p] == t[p - 1]);
                }
            }
        }
    }
}

/// The character indices in the mapping that stripping returns rise
/// strictly: each kept character comes from a later place in the text than
/// the one before it.
pub proof fn lemma_ansi_mapping_increasing(cs: Seq<char>)
    requires
        cs.len() <= usize::MAX,
    ensures
        forall|p: int, q: int|
            0 <= p < q < spec_ansi_mapping(cs).len() ==> (#[trigger] spec_ansi_mapping(cs)[p]).1
                < (#[trigger] spec_ansi_mapping(cs)[q]).1,
{
    lemma_kept_increasing(cs, 0);
    lemma_kept_not_escape(cs, 0);
    let k = kept_from(cs, 0);
    let m = spec_ansi_mapping(cs);
    assert forall|p: int, q: int| 0 <= p < q < m.len() implies (#[trigger] m[p]).1 < (#[trigger] m[q]).1 by {
        assert(k[p] < k[q]);
        assert(0 <= k[p] < cs.len() && 0 <= k[q] < cs.len());
        assert(m[p].1 == k[p] as usize);
        assert(m[q].1 == k[q] as usize);
    }
}

/// Text without escape sequences is left as it is by stripping.
pub proof fn lemma_strip_ansi_plain(cs: Seq<char>)
    requires
        no_escape(cs),
    ensures
        spec_strip_ansi(cs) == cs,
{
    lemma_kept_all(cs, 0);
    assert(spec_strip_ansi(cs) =~= cs);
}

/// Stripping leaves no ESC behind, so stripping twice strips no more than
/// stripping once.
pub proof fn lemma_strip_ansi_idempotent(cs: Seq<char>)
    ensures
        no_escape(spec_strip_ansi(cs)),
        spec_strip_ansi(spec_strip_ansi(cs)) == spec_strip_ansi(cs),
{
    lemma_kept_not_escape(cs, 0);
    let s = spec_strip_ansi(cs);
    assert forall|k: int| 0 <= k < s.len() implies #[trigger] s[k] != '\x1b' by {
        assert(s[k] == cs[kept_from(cs, 0)[k]]);
    }
    lemma_strip_ansi_plain(s);
}

/// For each character kept, its byte offset and its character index in the
/// text.
pub open spec fn spec_ansi_mapping(cs: Seq<char>) -> Seq<(usize, usize)> {
    kept_from(cs, 0).map_values(|k: int| (byte_len(cs.take(k)) as usize, k as usize))
}

/// Strips ANSI escape sequences from a string, returning the text without them
/// and a mapping from each kept character to its `(byte_position,
/// char_position)` in the original string.
///
/// Examples of ANSI codes that are stripped:
/// - `\x1b[31m` (set foreground color to red)
/// - `\x1b[01;32m` (bold green)
/// - `\x1b[0m` (reset)
/// - `\x1b]0;title\x07` (OSC sequences)
pub fn strip_ansi(text: &str) -> (r: (String, Vec<(usize, usize)>))
    ensures
        r.0@ == spec_strip_ansi(text@),
        r.1@ == spec_ansi_mapping(text@),
{
    let cs = str_to_chars(text);
    let offsets = char_byte_offsets(text);
    let n = cs.len();
    let mut result = String::new();
    let mut index_mapping: Vec<(usize, usize)> = Vec::new();
    let ghost mut kept: Seq<int> = Seq::empty();
    let mut i: usize = 0;
    while i < n
        invariant
            cs@ == text@,
            n == cs@.len(),
            offsets@.len() == n + 1,
            forall|k: int| 0 <= k <= n ==> #[trigger] offsets@[k] == byte_len(text@.take(k)),
            i <= n,
            kept_from(cs@, 0) == kept + kept_from(cs@, i as int),
            result@ == kept.map_values(|k: int| cs@[k]),
            index_mapping@ == kept.map_values(|k: int| (byte_len(cs@.take(k)) as usize, k as usize)),
        decreases n - i,
    {
        let ch = cs[i];
        if ch == '\x1b' {
            proof {
                lemma_escape_end(cs@, i as int);
            }
            let mut j = i + 1;
            if j < n {
                let next = cs[j];
                if next == '[' {
                    j = j + 1;
                    while j < n && !is_ascii_alpha(cs[j])
                        invariant
                            i + 2 <= j <= n,
                            n == cs@.len(),
                            csi_end(cs@, i + 2) == csi_end(cs@, j as int),
                        decreases n - j,
                    {
                        j += 1;
                    }
                    if j < n {
                        j += 1;
                    }
                } else if next == ']' {
                    j = j + 1;
                    let mut done = false;
                    while j < n && !done
                        invariant
                            i + 2 <= j <= n,
                            n == cs@.len(),
                            done ==> osc_end(cs@, i + 2) == j,
                            !done ==> osc_end(cs@, i + 2) == osc_end(cs@, j as int),
                        decreases n - j,
                    {
                        let c = cs[j];
                        if c == '\x07' {
                            j += 1;
                            done = true;
                        } else if c == '\x1b' && j + 1 < n && cs[j + 1] == '\\' {
                            j += 2;
                            done = true;
                        } else {
                            j += 1;
                        }
                    }
                } else if next == '(' || next == ')' || next == '#' || next == '%' {
                    j = if n - j >= 2 {
                        j + 2
                    } else {
                        n
                    };
                } else {
                    j = j + 1;
                }
            }
            assert(j == escape_end(cs@, i as int));
            i = j;
        } else {
            string_push(&mut result, ch);
            index_mapping.push((offsets[i], i));
            proof {
                let old_kept = kept;
                kept = kept.push(i as int);
                assert(kept_from(cs@, i as int) == seq![i as int] + kept_from(cs@, i + 1));
                assert(old_kept + kept_from(cs@, i as int) =~= kept + kept_from(cs@, i + 1));
                assert(result@ =~= kept.map_values(|k: int| cs@[k]));
                assert(index_mapping@ =~= kept.map_values(|k: int| (byte_len(cs@.take(k)) as usize, k as usize)));
            }
            i += 1;
        }
    }
    proof {
        assert(kept + kept_from(cs@, n as int) =~= kept);
    }
    (result, index_mapping)
}

/// The text with every ESC replaced by `?`.
pub open spec fn spec_escape_ansi(cs: Seq<char>) -> Seq<char> {
    cs.map_values(|c: char| if c == '\x1b' { '?' } else { c })
}

/// Replaces the ANSI ESC code by a `?`.
fn escape_ansi(raw: &str) -> (r: String)
    ensures
        r@ == spec_escape_ansi(raw@),
{
    let cs = str_to_chars(raw);
    let mut out = String::new();
    let mut i: usize = 0;
    while i < cs.len()
        invariant
            cs@ == raw@,
            i <= cs@.len(),
            out@ == spec_escape_ansi(raw@.take(i as int)),
        decreases cs@.len() - i,
    {
        let c = cs[i];
        string_push(
            &mut out,
            if c == '\x1b' {
                '?'
            } else {
                c
            },
        );
        assert(spec_escape_ansi(raw@.take(i + 1)) =~= spec_escape_ansi(raw@.take(i as int)).push(
            if c == '\x1b' {
                '?'
            } else {
                c
            },
        ));
        i += 1;
    }
    assert(raw@.take(cs@.len() as int) =~= raw@);
    out
}

//------------------------------------------------------------------------------
// Byte range sets

/// Some range of `rs` contains `x`.
pub open spec fn covers(rs: Seq<(usize, usize)>, x: int) -> bool {
    exists|k: int| 0 <= k < rs.len() && (#[trigger] rs[k]).0 <= x < rs[k].1
}

/// Non-empty ranges in increasing order, neither overlapping nor touching.
pub open spec fn normalized(rs: Seq<(usize, usize)>) -> bool {
    &&& forall|k: int| 0 <= k < rs.len() ==> (#[trigger] rs[k]).0 < rs[k].1
    &&& forall|i: int, j: int| 0 <= i < j < rs.len() ==> (#[trigger] rs[i]).1 < (#[trigger] rs[j]).0
}

/// Some range of `v` with index in `first..last` contains `x`.
pub open spec fn covered_between(v: Seq<(usize, usize)>, first: int, last: int, x: int) -> bool {
    exists|q: int| first <= q < last && (#[trigger] v[q]).0 <= x < v[q].1
}

/// Putting together the ranges before the new one, the merged range and the
/// ranges after it gives a normalized list covering the old ranges and the new
/// one.
proof fn lemma_insert_range_result(
    v: Seq<(usize, usize)>,
    s: int,
    e: int,
    first: int,
    last: int,
    ns: int,
    ne: int,
    r: Seq<(usize, usize)>,
)
    requires
        normalized(v),
        s < e,
        0 <= first <= last <= v.len(),
        forall|q: int| 0 <= q < first ==> (#[trigger] v[q]).1 < s,
        last < v.len() ==> ne < v[last].0,
        0 <= ns <= s,
        e <= ne <= usize::MAX,
        ns == s || (last > first && ns == v[first].0),
        forall|q: int| first <= q < last ==> ns <= (#[trigger] v[q]).0 && v[q].1 <= ne,
        forall|x: int| ns <= x < ne ==> (s <= x < e || #[trigger] covered_between(v, first, last, x)),
        r == v.take(first).push((ns as usize, ne as usize)) + v.subrange(last, v.len() as int),
    ensures
        normalized(r),
        forall|x: int| covers(r, x) <==> (covers(v, x) || s <= x < e),
{
    let n = v.len() as int;
    assert(r.len() == first + 1 + (n - last));
    assert forall|k: int| 0 <= k < r.len() implies r[k] == (if k < first {
        v[k]
    } else if k == first {
        (ns as usize, ne as usize)
    } else {
        v[last + k - first - 1]
    }) by {}
    assert forall|k: int| 0 <= k < r.len() implies (#[trigger] r[k]).0 < r[k].1 by {}
    assert forall|i: int, j: int| 0 <= i < j < r.len() implies (#[trigger] r[i]).1 < (#[trigger] r[j]).0 by {
        if j < first {
        } else if j == first {
            if ns == s {
            } else {
                assert(v[i].1 < v[first].0);
            }
        } else {
            let jj = last + j - first - 1;
            if i < first {
                assert(v[i].1 < v[jj].0);
            } else if i == first {
                if jj > last {
                    assert(v[last].1 < v[jj].0);
                }
            } else {
                let ii = last + i - first - 1;
                assert(v[ii].1 < v[jj].0);
            }
        }
    }
    assert forall|x: int| covers(r, x) implies (covers(v, x) || s <= x < e) by {
        let k = choose|k: int| 0 <= k < r.len() && (#[trigger] r[k]).0 <= x < r[k].1;
        if k < first {
            assert(v[k].0 <= x < v[k].1);
        } else if k == first {
            if !(s <= x < e) {
                assert(covered_between(v, first, last, x));
                let q = choose|q: int| first <= q < last && (#[trigger] v[q]).0 <= x < v[q].1;
                assert(v[q].0 <= x < v[q].1);
            }
        } else {
            assert(v[last + k - first - 1].0 <= x < v[last + k - first - 1].1);
        }
    }
    assert forall|x: int| (covers(v, x) || s <= x < e) implies covers(r, x) by {
        if s <= x < e {
            assert(r[first].0 <= x < r[first].1);
        } else {
            let q = choose|q: int| 0 <= q < v.len() && (#[trigger] v[q]).0 <= x < v[q].1;
            if q < first {
                assert(r[q].0 <= x < r[q].1);
            } else if q < last {
                assert(r[first].0 <= x < r[first].1);
            } else {
                assert(r[first + 1 + q - last] == v[q]);
                assert(r[first + 1 + q - last].0 <= x < r[first + 1 + q - last].1);
            }
        }
    }
}

/// Adds the range `[s, e)` to a normalized list of ranges, merging it with
/// the ranges it overlaps or touches.
fn insert_range(v: &Vec<(usize, usize)>, s: usize, e: usize) -> (r: Vec<(usize, usize)>)
    requires
        normalized(v@),
        s < e,
    ensures
        normalized(r@),
        forall|x: int| covers(r@, x) <==> (covers(v@, x) || s <= x < e),
{
    let n = v.len();
    let mut out: Vec<(usize, usize)> = Vec::new();
    let mut i: usize = 0;
    while i < n && v[i].1 < s
        invariant
            n == v@.len(),
            normalized(v@),
            i <= n,
            out@ == v@.take(i as int),
            forall|q: int| 0 <= q < i ==> (#[trigger] v@[q]).1 < s,
        decreases n - i,
    {
        out.push(v[i]);
        assert(out@ =~= v@.take(i + 1));
        i += 1;
    }
    let first = i;
    let mut ns = s;
    let mut ne = e;
    while i < n && v[i].0 <= ne
        invariant
            n == v@.len(),
            normalized(v@),
            first <= i <= n,
            out@ == v@.take(first as int),
            forall|q: int| 0 <= q < first ==> (#[trigger] v@[q]).1 < s,
            first < n ==> v@[first as int].1 >= s,
            ns <= s,
            e <= ne,
            ns < ne,
            i == first ==> ns == s && ne == e,
            i > first ==> ns == (if v@[first as int].0 < s { v@[first as int].0 } else { s }),
            i > first ==> ne >= v@[i - 1].1,
            forall|q: int| first <= q < i ==> ns <= (#[trigger] v@[q]).0 && v@[q].1 <= ne,
            forall|x: int| ns <= x < ne ==> (s <= x < e || #[trigger] covered_between(v@, first as int, i as int, x)),
        decreases n - i,
    {
        let (a, b) = v[i];
        proof {
            if i > first {
                assert(v@[i - 1].1 < v@[i as int].0);
                assert(v@[first as int].0 <= v@[i as int].0) by {
                    if first < i {
                        assert(v@[first as int].1 < v@[i as int].0);
                    }
                }
            }
        }
        let ghost old_ns = ns;
        let ghost old_ne = ne;
        if a < ns {
            ns = a;
        }
        if b > ne {
            ne = b;
        }
        proof {
            assert forall|x: int| ns <= x < ne implies (s <= x < e || #[trigger] covered_between(
                v@,
                first as int,
                i + 1,
                x,
            )) by {
                if old_ns <= x < old_ne {
                    if !(s <= x < e) {
                        assert(covered_between(v@, first as int, i as int, x));
                        let q = choose|q: int| first <= q < i && (#[trigger] v@[q]).0 <= x < v@[q].1;
                        assert(first <= q < i + 1 && v@[q].0 <= x < v@[q].1);
                    }
                } else {
                    assert(v@[i as int].0 <= x < v@[i as int].1);
                }
            }
        }
        i += 1;
    }
    proof {
        if i > first && ns != s {
            assert(ns == v@[first as int].0);
        }
    }
    let last = i;
    out.push((ns, ne));
    while i < n
        invariant
            n == v@.len(),
            first <= last <= i <= n,
            out@ == v@.take(first as int).push((ns, ne)) + v@.subrange(last as int, i as int),
        decreases n - i,
    {
        out.push(v[i]);
        assert(out@ =~= v@.take(first as int).push((ns, ne)) + v@.subrange(last as int, i + 1));
        i += 1;
    }
    proof {
        lemma_insert_range_result(v@, s as int, e as int, first as int, last as int, ns as int, ne as int, out@);
    }
    out
}

/// In a normalized list, no point of the first range is covered by the others,
/// and the rest covers exactly the points the whole covers at or after the
/// end of the first range.
proof fn lemma_normalized_rest(a: Seq<(usize, usize)>)
    requires
        normalized(a),
        a.len() > 0,
    ensures
        normalized(a.drop_first()),
        forall|x: int| a[0].0 <= x < a[0].1 ==> covers(a, x),
        !covers(a, a[0].1 as int),
        forall|x: int| x < a[0].0 ==> !covers(a, x),
        forall|x: int| covers(a.drop_first(), x) <==> (covers(a, x) && x >= a[0].1),
{
    let r = a.drop_first();
    assert forall|x: int| a[0].0 <= x < a[0].1 implies covers(a, x) by {
        assert(a[0].0 <= x < a[0].1);
    }
    assert forall|x: int| x <= a[0].1 && covers(a, x) implies x < a[0].1 by {
        let k = choose|k: int| 0 <= k < a.len() && (#[trigger] a[k]).0 <= x < a[k].1;
        if k > 0 {
            assert(a[0].1 < a[k].0);
        }
    }
    assert forall|x: int| x < a[0].0 implies !covers(a, x) by {
        if covers(a, x) {
            let k = choose|k: int| 0 <= k < a.len() && (#[trigger] a[k]).0 <= x < a[k].1;
            if k > 0 {
                assert(a[0].1 < a[k].0);
            }
        }
    }
    assert forall|x: int| covers(r, x) <==> (covers(a, x) && x >= a[0].1) by {
        if covers(r, x) {
            let k = choose|k: int| 0 <= k < r.len() && (#[trigger] r[k]).0 <= x < r[k].1;
            assert(a[k + 1] == r[k]);
            assert(a[0].1 < a[k + 1].0);
        }
        if covers(a, x) && x >= a[0].1 {
            let k = choose|k: int| 0 <= k < a.len() && (#[trigger] a[k]).0 <= x < a[k].1;
            assert(k != 0);
            assert(r[k - 1] == a[k]);
        }
    }
    assert forall|i: int, j: int| 0 <= i < j < r.len() implies (#[trigger] r[i]).1 < (#[trigger] r[j]).0 by {
        assert(r[i] == a[i + 1] && r[j] == a[j + 1]);
    }
}

/// Two normalized lists of ranges that cover the same points are the same
/// list: the normalized form of a set of points is unique, so what
/// `normalize_ranges` returns depends only on the points its input covers.
pub proof fn lemma_normalized_unique(a: Seq<(usize, usize)>, b: Seq<(usize, usize)>)
    requires
        normalized(a),
        normalized(b),
        forall|x: int| covers(a, x) <==> covers(b, x),
    ensures
        a == b,
    decreases a.len(),
{
    if a.len() == 0 {
        if b.len() > 0 {
            assert(covers(b, b[0].0 as int));
        }
        assert(a =~= b);
    } else {
        if b.len() == 0 {
            assert(covers(a, a[0].0 as int));
        }
        lemma_normalized_rest(a);
        lemma_normalized_rest(b);
        // the first ranges start at the first covered point
        assert(covers(a, a[0].0 as int));
        assert(covers(b, b[0].0 as int));
        assert(a[0].0 == b[0].0);
        // and end at the first point after it that is not covered
        if a[0].1 < b[0].1 {
            assert(covers(b, a[0].1 as int));
        }
        if b[0].1 < a[0].1 {
            assert(covers(a, b[0].1 as int));
        }
        assert(a[0] == b[0]);
        assert forall|x: int| covers(a.drop_first(), x) <==> covers(b.drop_first(), x) by {
            assert(covers(a, x) <==> covers(b, x));
            assert(covers(a.drop_first(), x) <==> (covers(a, x) && x >= a[0].1));
            assert(covers(b.drop_first(), x) <==> (covers(b, x) && x >= b[0].1));
        }
        lemma_normalized_unique(a.drop_first(), b.drop_first());
        assert(a =~= seq![a[0]] + a.drop_first());
        assert(b =~= seq![b[0]] + b.drop_first());
    }
}

/// Sort and merge a list of byte ranges into a canonical, non-overlapping form.
///
/// Empty ranges are dropped. Overlapping or touching ranges are merged so callers
/// can iterate the result assuming disjoint, ascending ranges.
pub fn normalize_ranges(ranges: &[(usize, usize)]) -> (r: Vec<(usize, usize)>)
    ensures
        normalized(r@),
        forall|x: int| covers(r@, x) <==> covers(ranges@, x),
{
    let mut merged: Vec<(usize, usize)> = Vec::new();
    let mut k: usize = 0;
    while k < ranges.len()
        invariant
            k <= ranges@.len(),
            normalized(merged@),
            forall|x: int| covers(merged@, x) <==> covers(ranges@.take(k as int), x),
        decreases ranges@.len() - k,
    {
        let (s, e) = ranges[k];
        let ghost before = merged@;
        if e > s {
            merged = insert_range(&merged, s, e);
        }
        proof {
            assert forall|x: int| covers(merged@, x) <==> covers(ranges@.take(k + 1), x) by {
                if covers(ranges@.take(k + 1), x) {
                    let q = choose|q: int| 0 <= q < k + 1 && (#[trigger] ranges@.take(k + 1)[q]).0 <= x < ranges@.take(k + 1)[q].1;
                    if q < k {
                        assert(ranges@.take(k as int)[q] == ranges@[q]);
                        assert(covers(ranges@.take(k as int), x));
                    }
                }
                if covers(ranges@.take(k as int), x) {
                    let q = choose|q: int| 0 <= q < k && (#[trigger] ranges@.take(k as int)[q]).0 <= x < ranges@.take(k as int)[q].1;
                    assert(ranges@.take(k + 1)[q] == ranges@[q]);
                }
                if s <= x < e {
                    assert(ranges@.take(k + 1)[k as int] == ranges@[k as int]);
                }
            }
        }
        k += 1;
    }
    assert(ranges@.take(ranges@.len() as int) =~= ranges@);
    merged
}

//------------------------------------------------------------------------------
// Hidden ranges

/// The byte offset of character `k` of `cs`.
pub open spec fn char_offset(cs: Seq<char>, k: int) -> int {
    byte_len(cs.take(k))
}

/// Whether character `k` of the text lies in a hidden range.
pub open spec fn char_hidden(cs: Seq<char>, hidden: Seq<(usize, usize)>, k: int) -> bool {
    covers(hidden, char_offset(cs, k))
}

/// The characters among the first `k` that are not hidden.
pub open spec fn visible_prefix(cs: Seq<char>, hidden: Seq<(usize, usize)>, k: int) -> Seq<char>
    decreases k,
{
    if k <= 0 {
        Seq::empty()
    } else if char_hidden(cs, hidden, k - 1) {
        visible_prefix(cs, hidden, k - 1)
    } else {
        visible_prefix(cs, hidden, k - 1).push(cs[k - 1])
    }
}

/// For each character, its index among the visible characters, `None` when
/// it is hidden.
pub open spec fn visible_map(cs: Seq<char>, hidden: Seq<(usize, usize)>) -> Seq<Option<usize>> {
    Seq::new(
        cs.len(),
        |k: int|
            if char_hidden(cs, hidden, k) {
                None
            } else {
                Some(visible_prefix(cs, hidden, k).len() as usize)
            },
    )
}

/// Remove the hidden byte ranges from `text`, returning the visible string and a
/// map from each original char index to its `Some(visible char index)`, or `None`
/// when that char falls inside a hidden range.
///
/// `hidden` must be normalized (see [`normalize_ranges`]): sorted, disjoint byte ranges.
pub fn project_visible_text(text: &str, hidden: &[(usize, usize)]) -> (r: (String, Vec<Option<usize>>))
    requires
        normalized(hidden@),
    ensures
        r.0@ == visible_prefix(text@, hidden@, text@.len() as int),
        r.1@ == visible_map(text@, hidden@),
{
    let cs = str_to_chars(text);
    let offsets = char_byte_offsets(text);
    let n = cs.len();
    let mut visible = String::new();
    let mut map: Vec<Option<usize>> = Vec::new();
    let mut vis_idx: usize = 0;
    let mut hi: usize = 0;
    let mut k: usize = 0;
    while k < n
        invariant
            cs@ == text@,
            n == cs@.len(),
            offsets@.len() == n + 1,
            forall|q: int| 0 <= q <= n ==> #[trigger] offsets@[q] == byte_len(text@.take(q)),
            normalized(hidden@),
            k <= n,
            hi <= hidden@.len(),
            forall|q: int| 0 <= q < hi ==> (#[trigger] hidden@[q]).1 <= char_offset(text@, k as int),
            visible@ == visible_prefix(text@, hidden@, k as int),
            vis_idx == visible@.len(),
            vis_idx <= k,
            map@ == visible_map(text@, hidden@).take(k as int),
        decreases n - k,
    {
        let byte_pos = offsets[k];
        while hi < hidden.len() && byte_pos >= hidden[hi].1
            invariant
                hi <= hidden@.len(),
                byte_pos == char_offset(text@, k as int),
                forall|q: int| 0 <= q < hi ==> (#[trigger] hidden@[q]).1 <= byte_pos,
            decreases hidden@.len() - hi,
        {
            hi += 1;
        }
        let is_hidden = hi < hidden.len() && byte_pos >= hidden[hi].0 && byte_pos < hidden[hi].1;
        proof {
            if is_hidden {
                assert(covers(hidden@, byte_pos as int));
            } else if covers(hidden@, byte_pos as int) {
                let q = choose|q: int| 0 <= q < hidden@.len() && (#[trigger] hidden@[q]).0 <= byte_pos < hidden@[q].1;
                if q > hi {
                    assert(hidden@[hi as int].1 < hidden@[q].0);
                    assert(hidden@[hi as int].0 < hidden@[hi as int].1);
                }
            }
            assert(is_hidden == char_hidden(text@, hidden@, k as int));
        }
        if is_hidden {
            map.push(None);
        } else {
            map.push(Some(vis_idx));
            string_push(&mut visible, cs[k]);
            vis_idx += 1;
        }
        proof {
            assert(map@ =~= visible_map(text@, hidden@).take(k + 1));
            crate::text::lemma_byte_len_mono(text@, k as int, k + 1);
        }
        k += 1;
    }
    proof {
        assert(map@ =~= visible_map(text@, hidden@));
    }
    (visible, map)
}

/// The indices of the characters of `cs` among the first `k` whose byte
/// offset lies in `[start, end)`.
pub open spec fn byte_range_chars(cs: Seq<char>, start: usize, end: usize, k: int) -> Seq<usize>
    decreases k,
{
    if k <= 0 {
        Seq::empty()
    } else {
        let prev = byte_range_chars(cs, start, end, k - 1);
        if start <= char_offset(cs, k - 1) < end {
            prev.push((k - 1) as usize)
        } else {
            prev
        }
    }
}

/// The character indices a match covers in `cs`.
pub open spec fn match_char_indices(cs: Seq<char>, m: Matches) -> Seq<usize> {
    match m {
        Matches::CharIndices(v) => v@,
        Matches::CharRange(s, e) => int_range(s as int, e as int),
        Matches::ByteRange(s, e) => byte_range_chars(cs, s, e, cs.len() as int),
        Matches::NoMatches => Seq::empty(),
    }
}

/// The visible indices the map gives to the indices of `full` that it maps.
pub open spec fn projected_set(full: Seq<usize>, map: Seq<Option<usize>>) -> Set<usize> {
    Set::new(|y: usize| exists|i: int| 0 <= i < full.len() && #[trigger] full[i] < map.len() && map[full[i] as int] == Some(y))
}

/// The visible character indices a match covers: those of its characters the
/// map keeps, moved to visible positions, in increasing order.
pub fn project_match_indices(text: &str, matches: &Matches, map: &[Option<usize>]) -> (r: Vec<usize>)
    ensures
        r@ == sorted_elements(projected_set(match_char_indices(text@, *matches), map@)),
{
    let full: Vec<usize> = match matches {
        Matches::CharIndices(indices) => indices.clone(),
        Matches::CharRange(start, end) => collect_range(*start, *end),
        Matches::ByteRange(start, end) => {
            let cs = str_to_chars(text);
            let offsets = char_byte_offsets(text);
            let mut v: Vec<usize> = Vec::new();
            let mut k: usize = 0;
            while k < cs.len()
                invariant
                    cs@ == text@,
                    offsets@.len() == cs@.len() + 1,
                    forall|q: int| 0 <= q <= cs@.len() ==> #[trigger] offsets@[q] == byte_len(text@.take(q)),
                    k <= cs@.len(),
                    v@ == byte_range_chars(text@, *start, *end, k as int),
                decreases cs@.len() - k,
            {
                if *start <= offsets[k] && offsets[k] < *end {
                    v.push(k);
                }
                k += 1;
            }
            v
        },
        Matches::NoMatches => Vec::new(),
    };
    proof {
        match matches {
            Matches::CharIndices(indices) => {
                assert(full@ == indices@);
            },
            _ => {},
        }
    }
    let ghost fv = match_char_indices(text@, *matches);
    assert(full@ == fv);
    let mut out: Vec<usize> = Vec::new();
    let mut i: usize = 0;
    while i < full.len()
        invariant
            i <= full@.len(),
            strictly_increasing(out@),
            out@.to_set() == projected_set(full@.take(i as int), map@),
        decreases full@.len() - i,
    {
        let ci = full[i];
        let ghost before = out@;
        if ci < map.len() {
            match map[ci] {
                Some(y) => {
                    insert_sorted_unique(&mut out, y);
                },
                None => {},
            }
        }
        proof {
            let t = full@.take(i + 1);
            let t0 = full@.take(i as int);
            assert forall|y: usize| out@.to_set().contains(y) == projected_set(t, map@).contains(y) by {
                if projected_set(t, map@).contains(y) {
                    let q = choose|q: int| 0 <= q < t.len() && #[trigger] t[q] < map@.len() && map@[t[q] as int] == Some(y);
                    if q < i {
                        assert(t0[q] == t[q]);
                        assert(projected_set(t0, map@).contains(y));
                    }
                }
                if projected_set(t0, map@).contains(y) {
                    let q = choose|q: int| 0 <= q < t0.len() && #[trigger] t0[q] < map@.len() && map@[t0[q] as int] == Some(y);
                    assert(t[q] == t0[q]);
                }
                if ci < map@.len() && map@[ci as int] == Some(y) {
                    assert(t[i as int] == ci);
                }
            }
            assert(out@.to_set() =~= projected_set(t, map@));
        }
        i += 1;
    }
    proof {
        assert(full@.take(full@.len() as int) =~= full@);
        lemma_is_sorted_elements(out@);
    }
    out
}

//------------------------------------------------------------------------------
// Searching text

/// Whether the UTF-8 encoding of `s` holds the byte `b`.
pub open spec fn contains_byte(s: Seq<char>, b: u8) -> bool {
    encode_utf8(s).contains(b)
}

/// Whether the UTF-8 bytes of `s` hold `b` (by `memchr`).
fn has_byte(s: &str, b: u8) -> (r: bool)
    ensures
        r == contains_byte(s@, b),
{
    let bytes = s.as_bytes();
    let found = memchr_first(b, bytes);
    proof {
        match found {
            Some(i) => {
                assert(encode_utf8(s@)[i as int] == b);
            },
            None => {},
        }
    }
    found.is_some()
}

/// `s` without its NUL characters.
pub open spec fn remove_nul(s: Seq<char>) -> Seq<char> {
    s.filter(|c: char| c != '\0')
}

fn strip_nul(s: &str) -> (r: String)
    ensures
        r@ == remove_nul(s@),
{
    let cs = str_to_chars(s);
    let mut out = String::new();
    let mut i: usize = 0;
    while i < cs.len()
        invariant
            cs@ == s@,
            i <= cs@.len(),
            out@ == remove_nul(s@.take(i as int)),
        decreases cs@.len() - i,
    {
        proof {
            assert(s@.take(i + 1).drop_last() =~= s@.take(i as int));
            reveal(Seq::filter);
        }
        if cs[i] != '\0' {
            string_push(&mut out, cs[i]);
        }
        i += 1;
    }
    assert(s@.take(cs@.len() as int) =~= s@);
    out
}

/// The first character index at or after `k` where `needle` occurs in `hay`.
pub open spec fn find_from(hay: Seq<char>, needle: Seq<char>, k: int) -> Option<int>
    decreases hay.len() + 1 - k,
{
    if k < 0 || k + needle.len() > hay.len() {
        None
    } else if hay.subrange(k, k + needle.len()) == needle {
        Some(k)
    } else {
        find_from(hay, needle, k + 1)
    }
}

/// The byte offset of the first occurrence of `needle` in `hay` (`str::find`).
fn find_str(hay: &str, needle: &str) -> (r: Option<usize>)
    ensures
        match find_from(hay@, needle@, 0) {
            Some(k) => r == Some(byte_len(hay@.take(k)) as usize),
            None => r is None,
        },
{
    let hs = str_to_chars(hay);
    let ns = str_to_chars(needle);
    let offsets = char_byte_offsets(hay);
    let n = ns.len();
    if n > hs.len() {
        return None;
    }
    let mut k: usize = 0;
    while k <= hs.len() - n
        invariant
            hs@ == hay@,
            ns@ == needle@,
            n == ns@.len(),
            n <= hs@.len(),
            offsets@.len() == hs@.len() + 1,
            forall|q: int| 0 <= q <= hs@.len() ==> #[trigger] offsets@[q] == byte_len(hay@.take(q)),
            k <= hs@.len(),
            find_from(hay@, needle@, 0) == find_from(hay@, needle@, k as int),
        decreases hs@.len() - k,
    {
        let mut j: usize = 0;
        let mut same = true;
        while j < n && same
            invariant
                hs@ == hay@,
                ns@ == needle@,
                n == ns@.len(),
                k + n <= hs@.len(),
                hs@.len() <= usize::MAX,
                j <= n,
                forall|q: int| 0 <= q < j ==> hs@[k + q] == ns@[q],
                !same ==> j < n && hs@[k + j] != ns@[j as int],
            decreases n - j, if same { 1int } else { 0int },
        {
            if hs[k + j] != ns[j] {
                same = false;
            } else {
                j += 1;
            }
        }
        if same {
            assert(hay@.subrange(k as int, k + n) =~= needle@);
            return Some(offsets[k]);
        }
        assert(hay@.subrange(k as int, k + n)[j as int] != needle@[j as int]);
        k += 1;
    }
    None
}

//------------------------------------------------------------------------------
// The default item

/// An item as plain values: the text shown (and matched, unless stripped),
/// the text to output when it differs, the text without ANSI codes and where
/// each of its characters came from, the byte ranges to match on, the byte
/// ranges hidden from display, and whether the item is disabled.
pub struct ItemModel {
    pub text: Seq<char>,
    pub orig_text: Option<Seq<char>>,
    pub stripped_text: Option<Seq<char>>,
    pub ansi_info: Option<Seq<(usize, usize)>>,
    pub matching_ranges: Option<Seq<(usize, usize)>>,
    pub hidden_ranges: Option<Seq<(usize, usize)>>,
    pub disabled: bool,
}

impl ItemModel {
    /// The text used for matching: without ANSI codes when they were stripped.
    pub open spec fn matching_text(self) -> Seq<char> {
        match self.stripped_text {
            Some(s) => s,
            None => self.text,
        }
    }
}

/// Additional metadata for a `SkimItem`
#[derive(Debug)]
pub struct DefaultSkimItemMetadata {
    /// The text that will be output when user press `enter`
    /// `Some(..)` => the original input is transformed, could not output `text` directly
    /// `None` => that it is safe to output `text` directly
    orig_text: Option<String>,
    /// The text stripped of all ansi sequences, used for matching
    stripped_text: Option<String>,
    /// For each character of the stripped text, its (byte, char) position in
    /// the raw text.
    ansi_info: Option<Vec<(usize, usize)>>,
    /// The ranges on which to perform matching
    matching_ranges: Option<Vec<(usize, usize)>>,
    /// Byte ranges (in the display/matching text) of fields hidden from display.
    hidden_ranges: Option<Vec<(usize, usize)>>,
    /// Whether the item should be disabled or not
    disabled: bool,
}

impl DefaultSkimItemMetadata {
    /// No field is set and the item is not disabled.
    pub closed spec fn is_blank(&self) -> bool {
        &&& self.orig_text is None
        &&& self.stripped_text is None
        &&& self.ansi_info is None
        &&& self.matching_ranges is None
        &&& self.hidden_ranges is None
        &&& !self.disabled
    }
}

impl Default for DefaultSkimItemMetadata {
    fn default() -> (r: Self)
        ensures
            r.is_blank(),
    {
        DefaultSkimItemMetadata {
            orig_text: None,
            stripped_text: None,
            ansi_info: None,
            matching_ranges: None,
            hidden_ranges: None,
            disabled: false,
        }
    }
}

/// An item will store everything that one line input will need to be operated and displayed.
#[derive(Debug)]
pub struct DefaultSkimItem {
    /// The text that will be shown on screen.
    text: String,
    /// Metadata containing miscellaneous fields when special options are used
    metadata: Option<Box<DefaultSkimItemMetadata>>,
}

pub open spec fn opt_view(o: Option<String>) -> Option<Seq<char>> {
    match o {
        Some(s) => Some(s@),
        None => None,
    }
}

pub open spec fn opt_vec_view(o: Option<Vec<(usize, usize)>>) -> Option<Seq<(usize, usize)>> {
    match o {
        Some(v) => Some(v@),
        None => None,
    }
}

impl View for DefaultSkimItem {
    type V = ItemModel;

    closed spec fn view(&self) -> ItemModel {
        match self.metadata {
            Some(m) => ItemModel {
                text: self.text@,
                orig_text: opt_view(m.orig_text),
                stripped_text: opt_view(m.stripped_text),
                ansi_info: opt_vec_view(m.ansi_info),
                matching_ranges: opt_vec_view(m.matching_ranges),
                hidden_ranges: opt_vec_view(m.hidden_ranges),
                disabled: m.disabled,
            },
            None => ItemModel {
                text: self.text@,
                orig_text: None,
                stripped_text: None,
                ansi_info: None,
                matching_ranges: None,
                hidden_ranges: None,
                disabled: false,
            },
        }
    }
}

/// The ranges the matching fields cover when the text held NUL characters:
/// each field is taken from `source` (the text with them), cleaned of them,
/// and looked up in the matching text; a field not found there is skipped.
pub open spec fn nul_field_ranges(d: Seq<char>, source: Seq<char>, m_text: Seq<char>, fields: Seq<FieldRange>) -> Seq<
    (usize, usize),
>
    decreases fields.len(),
{
    if fields.len() == 0 {
        Seq::empty()
    } else {
        let prev = nul_field_ranges(d, source, m_text, fields.drop_last());
        match spec_string_by_field(d, source, fields.last()) {
            Some(ft) => {
                let cleaned = remove_nul(ft);
                match find_from(m_text, cleaned, 0) {
                    Some(k) => prev.push(
                        (byte_len(m_text.take(k)) as usize, (byte_len(m_text.take(k)) + byte_len(cleaned)) as usize),
                    ),
                    None => prev,
                }
            },
            None => prev,
        }
    }
}

/// What `DefaultSkimItem::new` makes of its arguments.
///
/// With transform fields, the text is the selected fields (of the raw text
/// with ANSI, else of the text with ESC replaced by `?`), and the raw text is
/// kept for output; without, an ESC in the raw text becomes `?` unless ANSI is
/// enabled. NUL characters are then removed (the text with them kept for
/// output). With ANSI enabled and an ESC in the raw text, the escape
/// sequences are stripped for matching. Matching fields give the byte ranges
/// to match on.
pub open spec fn spec_new_item(
    orig: Seq<char>,
    ansi_enabled: bool,
    trans_fields: Seq<FieldRange>,
    matching_fields: Seq<FieldRange>,
    d: Seq<char>,
) -> ItemModel {
    let contains_ansi = contains_byte(orig, 27);
    let using = trans_fields.len() > 0;
    let o0: Option<Seq<char>> = if using {
        Some(orig)
    } else {
        None
    };
    let t0 = if using && ansi_enabled {
        transform_text(d, orig, trans_fields)
    } else if using {
        transform_text(d, spec_escape_ansi(orig), trans_fields)
    } else if !ansi_enabled && contains_ansi {
        spec_escape_ansi(orig)
    } else {
        orig
    };
    let has_null = contains_byte(t0, 0);
    let o1 = if has_null && o0 is None {
        Some(t0)
    } else {
        o0
    };
    let temp = if has_null {
        remove_nul(t0)
    } else {
        t0
    };
    let strip = ansi_enabled && contains_ansi;
    let m_text = if strip {
        spec_strip_ansi(temp)
    } else {
        temp
    };
    ItemModel {
        text: temp,
        orig_text: o1,
        stripped_text: if strip {
            Some(spec_strip_ansi(temp))
        } else {
            None
        },
        ansi_info: if strip {
            Some(spec_ansi_mapping(temp))
        } else {
            None
        },
        matching_ranges: if matching_fields.len() == 0 {
            None
        } else if has_null {
            Some(nul_field_ranges(d, o1->Some_0, m_text, matching_fields))
        } else {
            Some(matching_spans(field_ranges(d, m_text), byte_len(m_text) as usize, matching_fields))
        },
        hidden_ranges: None,
        disabled: false,
    }
}

impl DefaultSkimItem {
    /// The matching ranges fit the matching text, and the hidden ranges are
    /// normalized.
    #[verifier::type_invariant]
    spec fn wf(self) -> bool {
        &&& self@.matching_ranges matches Some(r) ==> ranges_fit(self@.matching_text(), r)
        &&& self@.hidden_ranges matches Some(h) ==> normalized(h)
    }

    fn contains_ansi_escape(s: &str) -> (r: bool)
        ensures
            r == contains_byte(s@, 27),
    {
        has_byte(s, 27u8)
    }

    /// Create a new `DefaultSkimItem` from text
    pub fn new(
        orig_text: &str,
        ansi_enabled: bool,
        trans_fields: &[FieldRange],
        matching_fields: &[FieldRange],
        delimiter: &Delimiter,
    ) -> (r: Self)
        ensures
            r@ == spec_new_item(orig_text@, ansi_enabled, trans_fields@, matching_fields@, delimiter@),
    {
        let using_transform_fields = trans_fields.len() > 0;
        let contains_ansi = Self::contains_ansi_escape(orig_text);
        let (mut orig, mut temp): (Option<String>, String) = if using_transform_fields && ansi_enabled {
            let transformed = parse_transform_fields(delimiter, orig_text, trans_fields);
            (Some(orig_text.to_owned()), transformed)
        } else if using_transform_fields {
            let escaped = escape_ansi(orig_text);
            let transformed = parse_transform_fields(delimiter, escaped.as_str(), trans_fields);
            (Some(orig_text.to_owned()), transformed)
        } else if !ansi_enabled && contains_ansi {
            (None, escape_ansi(orig_text))
        } else {
            (None, orig_text.to_owned())
        };
        let has_null_bytes = has_byte(temp.as_str(), 0u8);
        if has_null_bytes && orig.is_none() {
            orig = Some(temp.clone());
        }
        if has_null_bytes {
            temp = strip_nul(temp.as_str());
        }
        let (stripped_text, ansi_info) = if ansi_enabled && contains_ansi {
            let (stripped, info) = strip_ansi(temp.as_str());
            (Some(stripped), Some(info))
        } else {
            (None, None)
        };
        let ghost m_text = match opt_view(stripped_text) {
            Some(s) => s,
            None => temp@,
        };
        let matching_ranges = if matching_fields.len() == 0 {
            None
        } else {
            let text_for_matching: &str = match &stripped_text {
                Some(s) => s.as_str(),
                None => temp.as_str(),
            };
            if has_null_bytes {
                let source: &str = match &orig {
                    Some(o) => o.as_str(),
                    None => text_for_matching,
                };
                Some(Self::nul_field_ranges(delimiter, source, text_for_matching, matching_fields))
            } else {
                Some(parse_matching_fields(delimiter, text_for_matching, matching_fields))
            }
        };
        assert(opt_vec_view(matching_ranges) matches Some(r) ==> ranges_fit(m_text, r));
        let metadata = if orig.is_some() || stripped_text.is_some() || ansi_info.is_some() || matching_ranges.is_some() {
            Some(
                Box::new(
                    DefaultSkimItemMetadata {
                        orig_text: orig,
                        stripped_text,
                        ansi_info,
                        matching_ranges,
                        hidden_ranges: None,
                        disabled: false,
                    },
                ),
            )
        } else {
            None
        };
        DefaultSkimItem { text: temp, metadata }
    }

    /// The byte ranges of the matching fields when the text held NUL
    /// characters: each field, taken from `source` and cleaned of them, is
    /// looked up in `m_text`.
    fn nul_field_ranges(delimiter: &Delimiter, source: &str, m_text: &str, fields: &[FieldRange]) -> (r: Vec<
        (usize, usize),
    >)
        ensures
            r@ == nul_field_ranges(delimiter@, source@, m_text@, fields@),
            ranges_fit(m_text@, r@),
    {
        let total = str_byte_len(m_text);
        let mut adjusted: Vec<(usize, usize)> = Vec::new();
        let mut k: usize = 0;
        while k < fields.len()
            invariant
                total == byte_len(m_text@),
                k <= fields@.len(),
                adjusted@ == nul_field_ranges(delimiter@, source@, m_text@, fields@.take(k as int)),
                ranges_fit(m_text@, adjusted@),
            decreases fields@.len() - k,
        {
            proof {
                assert(fields@.take(k + 1).drop_last() =~= fields@.take(k as int));
                assert(fields@.take(k + 1).last() == fields@[k as int]);
            }
            match get_string_by_field(delimiter, source, &fields[k]) {
                Some(field_text) => {
                    let cleaned = strip_nul(field_text.as_str());
                    match find_str(m_text, cleaned.as_str()) {
                        Some(pos) => {
                            let ghost q = find_from(m_text@, cleaned@, 0)->Some_0;
                            proof {
                                lemma_find_from(m_text@, cleaned@, 0);
                                let t = m_text@;
                                assert(t.take(q + cleaned@.len()) =~= t.take(q) + t.subrange(q, q + cleaned@.len()));
                                lemma_byte_len_append(t.take(q), t.subrange(q, q + cleaned@.len()));
                                crate::text::lemma_byte_len_mono(t, q, t.len() as int);
                                crate::text::lemma_byte_len_mono(t, q + cleaned@.len(), t.len() as int);
                                assert(t.take(t.len() as int) =~= t);
                                assert(is_boundary(t, byte_len(t.take(q))));
                                assert(is_boundary(t, byte_len(t.take(q + cleaned@.len()))));
                            }
                            let end = pos + str_byte_len(cleaned.as_str());
                            let ghost before = adjusted@;
                            adjusted.push((pos, end));
                            proof {
                                assert(range_fits_clamped((pos, end), m_text@));
                                assert forall|i: int| 0 <= i < adjusted@.len() implies range_fits_clamped(
                                    #[trigger] adjusted@[i],
                                    m_text@,
                                ) by {
                                    if i < before.len() {
                                        assert(adjusted@[i] == before[i]);
                                    }
                                }
                            }
                        },
                        None => {},
                    }
                },
                None => {},
            }
            k += 1;
        }
        proof {
            assert(fields@.take(fields@.len() as int) =~= fields@);
        }
        adjusted
    }
}

/// Where `find_from` finds the needle, it occurs, inside the text.
proof fn lemma_find_from(hay: Seq<char>, needle: Seq<char>, k: int)
    requires
        0 <= k,
    ensures
        find_from(hay, needle, k) matches Some(q) ==> k <= q && q + needle.len() <= hay.len()
            && hay.subrange(q, q + needle.len()) == needle,
    decreases hay.len() + 1 - k,
{
    if k + needle.len() <= hay.len() && hay.subrange(k, k + needle.len()) != needle {
        lemma_find_from(hay, needle, k + 1);
    }
}

impl DefaultSkimItem {
    /// The text used for matching.
    fn text_str(&self) -> (r: &str)
        ensures
            r@ == self@.matching_text(),
    {
        match &self.metadata {
            Some(m) => match &m.stripped_text {
                Some(s) => s.as_str(),
                None => self.text.as_str(),
            },
            None => self.text.as_str(),
        }
    }

    /// Builder-style setter for the fields hidden from display.
    ///
    /// The fields are resolved against the item's display/matching text; they stay
    /// part of the text used for matching and are only removed from display. A
    /// no-op when `hidden_fields` is empty or resolves to no ranges.
    pub fn hidden_fields(self, hidden_fields: &[FieldRange], delimiter: &Delimiter) -> (r: Self)
        ensures
            ({
                let spans = matching_spans(
                    field_ranges(delimiter@, self@.matching_text()),
                    byte_len(self@.matching_text()) as usize,
                    hidden_fields@,
                );
                &&& r@.text == self@.text
                &&& r@.orig_text == self@.orig_text
                &&& r@.stripped_text == self@.stripped_text
                &&& r@.ansi_info == self@.ansi_info
                &&& r@.matching_ranges == self@.matching_ranges
                &&& r@.disabled == self@.disabled
                &&& if hidden_fields@.len() == 0 || forall|x: int| !covers(spans, x) {
                    r@.hidden_ranges == self@.hidden_ranges
                } else {
                    r@.hidden_ranges matches Some(h) && normalized(h) && forall|x: int| covers(h, x) <==> covers(spans, x)
                }
            }),
    {
        proof {
            use_type_invariant(&self);
        }
        if hidden_fields.len() == 0 {
            return self;
        }
        let spans = parse_matching_fields(delimiter, self.text_str(), hidden_fields);
        let ranges = normalize_ranges(&spans);
        if ranges.len() == 0 {
            proof {
                assert forall|x: int| !covers(spans@, x) by {
                    if covers(spans@, x) {
                        assert(covers(ranges@, x));
                    }
                }
            }
            return self;
        }
        proof {
            assert(covers(ranges@, ranges@[0].0 as int));
        }
        let DefaultSkimItem { text, metadata } = self;
        let meta = match metadata {
            Some(m) => {
                let DefaultSkimItemMetadata { orig_text, stripped_text, ansi_info, matching_ranges, hidden_ranges: _, disabled } =
                    *m;
                DefaultSkimItemMetadata {
                    orig_text,
                    stripped_text,
                    ansi_info,
                    matching_ranges,
                    hidden_ranges: Some(ranges),
                    disabled,
                }
            },
            None => {
                let mut m = DefaultSkimItemMetadata::default();
                m.hidden_ranges = Some(ranges);
                m
            },
        };
        DefaultSkimItem { text, metadata: Some(Box::new(meta)) }
    }

    /// Mark the item as disabled
    pub fn disable(&mut self)
        ensures
            final(self)@ == (ItemModel { disabled: true, ..old(self)@ }),
    {
        proof {
            use_type_invariant(&*self);
        }
        let mut metadata: Option<Box<DefaultSkimItemMetadata>> = None;
        std::mem::swap(&mut metadata, &mut self.metadata);
        let mut text = String::new();
        std::mem::swap(&mut text, &mut self.text);
        let meta = match metadata {
            Some(m) => {
                let DefaultSkimItemMetadata { orig_text, stripped_text, ansi_info, matching_ranges, hidden_ranges, disabled: _ } =
                    *m;
                DefaultSkimItemMetadata { orig_text, stripped_text, ansi_info, matching_ranges, hidden_ranges, disabled: true }
            },
            None => {
                let mut m = DefaultSkimItemMetadata::default();
                m.disabled = true;
                m
            },
        };
        *self = DefaultSkimItem { text, metadata: Some(Box::new(meta)) };
    }

    /// Getter for `stripped_text` stored in the metadata
    pub fn stripped_text(&self) -> (r: Option<&str>)
        ensures
            match r {
                Some(s) => self@.stripped_text == Some(s@),
                None => self@.stripped_text is None,
            },
    {
        match &self.metadata {
            Some(m) => match &m.stripped_text {
                Some(s) => Some(s.as_str()),
                None => None,
            },
            None => None,
        }
    }

    /// Getter for `orig_text` stored in metadata
    pub fn orig_text(&self) -> (r: Option<&str>)
        ensures
            match r {
                Some(s) => self@.orig_text == Some(s@),
                None => self@.orig_text is None,
            },
    {
        match &self.metadata {
            Some(m) => match &m.orig_text {
                Some(s) => Some(s.as_str()),
                None => None,
            },
            None => None,
        }
    }

    /// Getter for `ansi_info` stored in metadata
    pub fn ansi_info(&self) -> (r: Option<&Vec<(usize, usize)>>)
        ensures
            match r {
                Some(v) => self@.ansi_info == Some(v@),
                None => self@.ansi_info is None,
            },
    {
        match &self.metadata {
            Some(m) => match &m.ansi_info {
                Some(v) => Some(v),
                None => None,
            },
            None => None,
        }
    }

    /// Getter for `matching_ranges` stored in metadata
    pub fn matching_ranges(&self) -> (r: Option<&[(usize, usize)]>)
        ensures
            match r {
                Some(v) => self@.matching_ranges == Some(v@) && ranges_fit(self@.matching_text(), v@),
                None => self@.matching_ranges is None,
            },
    {
        proof {
            use_type_invariant(self);
        }
        match &self.metadata {
            Some(m) => match &m.matching_ranges {
                Some(v) => Some(v.as_slice()),
                None => None,
            },
            None => None,
        }
    }

    /// Getter for `hidden_ranges` stored in metadata
    pub fn hidden_ranges(&self) -> (r: Option<&[(usize, usize)]>)
        ensures
            match r {
                Some(v) => self@.hidden_ranges == Some(v@) && normalized(v@),
                None => self@.hidden_ranges is None,
            },
    {
        proof {
            use_type_invariant(self);
        }
        match &self.metadata {
            Some(m) => match &m.hidden_ranges {
                Some(v) => Some(v.as_slice()),
                None => None,
            },
            None => None,
        }
    }

    /// Whether the item is disabled.
    pub fn is_disabled(&self) -> (r: bool)
        ensures
            r == self@.disabled,
    {
        match &self.metadata {
            Some(m) => m.disabled,
            None => false,
        }
    }

    /// Get the display text (with ANSI codes if present) for rendering purposes
    pub fn get_display_text(&self) -> (r: &str)
        ensures
            r@ == self@.text,
    {
        self.text.as_str()
    }

    /// The text output when the item is selected: the original text when it
    /// was transformed, else the text.
    pub fn output(&self) -> (r: &str)
        ensures
            r@ == match self@.orig_text {
                Some(o) => o,
                None => self@.text,
            },
    {
        match self.orig_text() {
            Some(o) => o,
            None => self.text.as_str(),
        }
    }
}

impl From<String> for DefaultSkimItem {
    fn from(value: String) -> (r: Self) {
        DefaultSkimItem { text: value, metadata: None }
    }
}

impl vstd::std_specs::convert::FromSpecImpl<String> for DefaultSkimItem {
    open spec fn obeys_from_spec() -> bool {
        true
    }

    open spec fn from_spec(v: String) -> Self {
        DefaultSkimItem::from_string_spec(v)
    }
}

impl DefaultSkimItem {
    /// The item `From<String>` makes: the text alone.
    pub closed spec fn from_string_spec(v: String) -> Self {
        DefaultSkimItem { text: v, metadata: None }
    }

    /// The item made from a string shows and matches that string, with
    /// nothing else set.
    pub proof fn lemma_from_string(v: String)
        ensures
            Self::from_string_spec(v)@ == (ItemModel {
                text: v@,
                orig_text: None,
                stripped_text: None,
                ansi_info: None,
                matching_ranges: None,
                hidden_ranges: None,
                disabled: false,
            }),
    {
    }
}

impl SkimItem for DefaultSkimItem {
    open spec fn spec_text(&self) -> Seq<char> {
        self@.matching_text()
    }

    open spec fn spec_matching_ranges(&self) -> Option<Seq<(usize, usize)>> {
        self@.matching_ranges
    }

    fn text(&self) -> (r: Cow<'_, str>) {
        Cow::Borrowed(self.text_str())
    }

    fn get_matching_ranges(&self) -> (r: Option<&[(usize, usize)]>) {
        self.matching_ranges()
    }
}

} // verus!
