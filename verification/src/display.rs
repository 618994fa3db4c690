//! How a matched item is cut into plain and highlighted pieces for display:
//! the pieces of a line of text, and the pieces of already styled spans.
use vstd::prelude::*;

use crate::text::{byte_len, char_byte_offsets, chars_range_to_string, str_to_chars, string_push};
use crate::{chars_before_byte, count_chars_before, is_boundary, range_fits_clamped, Matches};

verus! {

//------------------------------------------------------------------------------
// A line of text

pub open spec fn min_int(a: int, b: int) -> int {
    if a <= b {
        a
    } else {
        b
    }
}

/// The pieces around the highlighted characters `idx[j..]`, the text read so
/// far up to character `p`: before each index the text from the current
/// position up to it (plain), then the character at the index (highlighted;
/// a NUL when the text has run out); at the end the rest (plain).
pub open spec fn index_pieces(cs: Seq<char>, idx: Seq<usize>, j: int, p: int) -> Seq<(Seq<char>, bool)>
    decreases idx.len() - j,
{
    if j < 0 || j >= idx.len() {
        seq![(cs.subrange(min_int(p, cs.len() as int), cs.len() as int), false)]
    } else {
        let i = idx[j] as int;
        seq![
            (cs.subrange(min_int(p, cs.len() as int), min_int(i, cs.len() as int)), false),
            (if i < cs.len() {
                seq![cs[i]]
            } else {
                seq!['\0']
            }, true),
        ] + index_pieces(cs, idx, j + 1, i + 1)
    }
}

/// The pieces of a text cut at the characters `a` and `b`: plain before,
/// highlighted between, plain after.
pub open spec fn range_pieces(cs: Seq<char>, a: int, b: int) -> Seq<(Seq<char>, bool)> {
    let n = cs.len() as int;
    seq![
        (cs.subrange(0, min_int(a, n)), false),
        (cs.subrange(min_int(a, n), min_int(b, n)), true),
        (cs.subrange(min_int(b, n), n), false),
    ]
}

/// The byte offset `x` cut to the byte length of `cs`.
pub open spec fn clamp_byte(x: usize, cs: Seq<char>) -> int {
    if x <= byte_len(cs) {
        x as int
    } else {
        byte_len(cs)
    }
}

/// The pieces a match makes of a line of text, each marked highlighted or
/// not: around each matched index, or around a character or byte range, or
/// the whole text when nothing matched.
pub open spec fn spec_line_pieces(cs: Seq<char>, m: Matches) -> Seq<(Seq<char>, bool)> {
    match m {
        Matches::CharIndices(v) => index_pieces(cs, v@, 0, 0),
        Matches::CharRange(s, e) => range_pieces(cs, s as int, e as int),
        Matches::ByteRange(s, e) => range_pieces(
            cs,
            chars_before_byte(cs, clamp_byte(s, cs)),
            chars_before_byte(cs, clamp_byte(e, cs)),
        ),
        Matches::NoMatches => seq![(cs, false)],
    }
}

/// What a match needs to be laid out on a line: indices strictly increasing
/// and below `usize::MAX`, a range that runs forwards, a byte range between
/// character boundaries.
pub open spec fn line_matches_ok(cs: Seq<char>, m: Matches) -> bool {
    match m {
        Matches::CharIndices(v) => (forall|i: int, j: int| 0 <= i < j < v@.len() ==> v@[i] < v@[j]) && (forall|
            i: int,
        |
            0 <= i < v@.len() ==> v@[i] < usize::MAX),
        Matches::CharRange(s, e) => s <= e,
        Matches::ByteRange(s, e) => range_fits_clamped((s, e), cs),
        Matches::NoMatches => true,
    }
}

/// The text of the pieces, in order.
pub open spec fn join_texts(ps: Seq<(Seq<char>, bool)>) -> Seq<char>
    decreases ps.len(),
{
    if ps.len() == 0 {
        Seq::empty()
    } else {
        ps[0].0 + join_texts(ps.skip(1))
    }
}

proof fn lemma_join_front(a: (Seq<char>, bool), b: (Seq<char>, bool), rest: Seq<(Seq<char>, bool)>)
    ensures
        join_texts(seq![a, b] + rest) == a.0 + b.0 + join_texts(rest),
{
    let ps = seq![a, b] + rest;
    let qs = seq![b] + rest;
    assert(ps.skip(1) =~= qs);
    assert(qs.skip(1) =~= rest);
    assert(ps[0] == a);
    assert(qs[0] == b);
    assert(join_texts(qs) == b.0 + join_texts(rest));
    assert(join_texts(ps) == a.0 + join_texts(qs));
    assert(a.0 + (b.0 + join_texts(rest)) =~= a.0 + b.0 + join_texts(rest));
}

proof fn lemma_index_pieces_join(cs: Seq<char>, idx: Seq<usize>, j: int, p: int)
    requires
        0 <= j <= idx.len(),
        0 <= p <= cs.len(),
        forall|a: int, b: int| 0 <= a < b < idx.len() ==> idx[a] < idx[b],
        forall|a: int| 0 <= a < idx.len() ==> idx[a] < cs.len(),
        j < idx.len() ==> p <= idx[j],
    ensures
        join_texts(index_pieces(cs, idx, j, p)) == cs.subrange(p, cs.len() as int),
    decreases idx.len() - j,
{
    if j >= idx.len() {
        let ps = index_pieces(cs, idx, j, p);
        assert(ps.skip(1) =~= Seq::<(Seq<char>, bool)>::empty());
        assert(join_texts(Seq::<(Seq<char>, bool)>::empty()) == Seq::<char>::empty());
        assert(join_texts(ps) == ps[0].0 + join_texts(ps.skip(1)));
        assert(join_texts(ps) =~= cs.subrange(p, cs.len() as int));
    } else {
        let i = idx[j] as int;
        lemma_index_pieces_join(cs, idx, j + 1, i + 1);
        let a = (cs.subrange(p, i), false);
        let b = (seq![cs[i]], true);
        lemma_join_front(a, b, index_pieces(cs, idx, j + 1, i + 1));
        assert(index_pieces(cs, idx, j, p) == seq![a, b] + index_pieces(cs, idx, j + 1, i + 1));
        assert(cs.subrange(p, i) + seq![cs[i]] + cs.subrange(i + 1, cs.len() as int) =~= cs.subrange(p, cs.len() as int));
    }
}

proof fn lemma_range_pieces_join(cs: Seq<char>, a: int, b: int)
    requires
        0 <= a <= b,
    ensures
        join_texts(range_pieces(cs, a, b)) == cs,
{
    let n = cs.len() as int;
    let ps = range_pieces(cs, a, b);
    let e = Seq::<(Seq<char>, bool)>::empty();
    assert(ps =~= seq![ps[0], ps[1]] + seq![ps[2]]);
    lemma_join_front(ps[0], ps[1], seq![ps[2]]);
    assert(seq![ps[2]].skip(1) =~= e);
    assert(join_texts(e) == Seq::<char>::empty());
    assert(join_texts(seq![ps[2]]) == ps[2].0 + join_texts(e));
    assert(join_texts(ps) =~= cs);
}

/// Laying out a match cuts the line into pieces that, put back together,
/// give the line again, when every matched index lies in the text (an index
/// past its end shows as a NUL).
pub proof fn lemma_line_pieces_join(cs: Seq<char>, m: Matches)
    requires
        line_matches_ok(cs, m),
        m matches Matches::CharIndices(v) ==> forall|k: int| 0 <= k < v@.len() ==> v@[k] < cs.len(),
    ensures
        join_texts(spec_line_pieces(cs, m)) == cs,
{
    match m {
        Matches::CharIndices(v) => {
            lemma_index_pieces_join(cs, v@, 0, 0);
            assert(cs.subrange(0, cs.len() as int) =~= cs);
        },
        Matches::CharRange(s, e) => {
            lemma_range_pieces_join(cs, s as int, e as int);
        },
        Matches::ByteRange(s, e) => {
            crate::lemma_chars_before_mono(cs, clamp_byte(s, cs), clamp_byte(e, cs));
            crate::lemma_chars_before_range(cs, clamp_byte(s, cs));
            lemma_range_pieces_join(
                cs,
                chars_before_byte(cs, clamp_byte(s, cs)),
                chars_before_byte(cs, clamp_byte(e, cs)),
            );
        },
        Matches::NoMatches => {
            let ps = seq![(cs, false)];
            let e = Seq::<(Seq<char>, bool)>::empty();
            assert(ps.skip(1) =~= e);
            assert(join_texts(e) == Seq::<char>::empty());
            assert(join_texts(ps) == cs + join_texts(e));
            assert(join_texts(ps) =~= cs);
        },
    }
}

/// Whether a match can be laid out on a line of text, which `line_pieces`
/// asks of its arguments.
pub fn check_line_matches(text: &str, matches: &Matches) -> (r: bool)
    ensures
        r == line_matches_ok(text@, *matches),
{
    match matches {
        Matches::CharIndices(v) => {
            let mut k: usize = 0;
            while k < v.len()
                invariant
                    *matches == Matches::CharIndices(*v),
                    k <= v@.len(),
                    forall|i: int, j: int| 0 <= i < j < k ==> v@[i] < v@[j],
                    forall|i: int| 0 <= i < k ==> v@[i] < usize::MAX,
                decreases v@.len() - k,
            {
                if v[k] == usize::MAX {
                    proof {
                        assert(matches->CharIndices_0@ == v@);
                        assert(line_matches_ok(text@, *matches) ==> v@[k as int] < usize::MAX);
                    }
                    return false;
                }
                if k > 0 && v[k - 1] >= v[k] {
                    proof {
                        assert(matches->CharIndices_0@ == v@);
                        assert(line_matches_ok(text@, *matches) ==> v@[k - 1] < v@[k as int]);
                    }
                    return false;
                }
                k += 1;
            }
            true
        },
        Matches::CharRange(s, e) => *s <= *e,
        Matches::ByteRange(s, e) => {
            let bl = crate::text::str_byte_len(text);
            let s2 = if *s <= bl {
                *s
            } else {
                bl
            };
            let e2 = if *e <= bl {
                *e
            } else {
                bl
            };
            let offsets = char_byte_offsets(text);
            s2 <= e2 && crate::text::has_boundary(&offsets, s2, Ghost(text@)) && crate::text::has_boundary(
                &offsets,
                e2,
                Ghost(text@),
            )
        },
        Matches::NoMatches => true,
    }
}

/// The pieces as plain values.
pub open spec fn pieces_view(v: Seq<(String, bool)>) -> Seq<(Seq<char>, bool)> {
    v.map_values(|p: (String, bool)| (p.0@, p.1))
}

/// Cuts a line of text into plain and highlighted pieces for a match.
pub fn line_pieces(text: &str, matches: &Matches) -> (r: Vec<(String, bool)>)
    requires
        line_matches_ok(text@, *matches),
    ensures
        pieces_view(r@) == spec_line_pieces(text@, *matches),
{
    let cs = str_to_chars(text);
    let n = cs.len();
    let mut out: Vec<(String, bool)> = Vec::new();
    match matches {
        Matches::CharIndices(indices) => {
            let mut prev: usize = 0;
            let mut j: usize = 0;
            while j < indices.len()
                invariant
                    cs@ == text@,
                    n == cs@.len(),
                    j <= indices@.len(),
                    forall|a: int, b: int| 0 <= a < b < indices@.len() ==> indices@[a] < indices@[b],
                    forall|a: int| 0 <= a < indices@.len() ==> indices@[a] < usize::MAX,
                    j > 0 ==> prev == indices@[j - 1] + 1,
                    j == 0 ==> prev == 0,
                    pieces_view(out@) + index_pieces(text@, indices@, j as int, prev as int) == index_pieces(
                        text@,
                        indices@,
                        0,
                        0,
                    ),
                decreases indices@.len() - j,
            {
                let index = indices[j];
                let a = if prev < n {
                    prev
                } else {
                    n
                };
                let b = if index < n {
                    index
                } else {
                    n
                };
                proof {
                    if j > 0 {
                        assert(indices@[j - 1] < indices@[j as int]);
                    }
                }
                let plain = chars_range_to_string(&cs, a, b);
                let mut hl = String::new();
                string_push(
                    &mut hl,
                    if index < n {
                        cs[index]
                    } else {
                        '\0'
                    },
                );
                let ghost before = out@;
                out.push((plain, false));
                out.push((hl, true));
                proof {
                    assert(pieces_view(out@) =~= pieces_view(before) + seq![
                        (text@.subrange(min_int(prev as int, n as int), min_int(index as int, n as int)), false),
                        (if index < n {
                            seq![text@[index as int]]
                        } else {
                            seq!['\0']
                        }, true),
                    ]);
                }
                prev = index + 1;
                j += 1;
            }
            let a = if prev < n {
                prev
            } else {
                n
            };
            let rest = chars_range_to_string(&cs, a, n);
            let ghost before = out@;
            out.push((rest, false));
            proof {
                assert(pieces_view(out@) =~= pieces_view(before) + seq![
                    (text@.subrange(min_int(prev as int, n as int), n as int), false),
                ]);
            }
        },
        Matches::CharRange(start, end) => {
            let a = if *start < n {
                *start
            } else {
                n
            };
            let b = if *end < n {
                *end
            } else {
                n
            };
            out.push((chars_range_to_string(&cs, 0, a), false));
            out.push((chars_range_to_string(&cs, a, b), true));
            out.push((chars_range_to_string(&cs, b, n), false));
            proof {
                assert(pieces_view(out@) =~= range_pieces(text@, *start as int, *end as int));
            }
        },
        Matches::ByteRange(start, end) => {
            let len = crate::text::str_byte_len(text);
            let offsets = char_byte_offsets(text);
            let s = if *start <= len {
                *start
            } else {
                len
            };
            let e = if *end <= len {
                *end
            } else {
                len
            };
            let a = count_chars_before(&offsets, s, Ghost(text@));
            let b = count_chars_before(&offsets, e, Ghost(text@));
            proof {
                crate::engine::util::lemma_boundary_chars(text@, s as int);
                crate::engine::util::lemma_boundary_chars(text@, e as int);
                if b < a {
                    crate::text::lemma_byte_len_mono(text@, b as int, a as int);
                }
            }
            out.push((chars_range_to_string(&cs, 0, a), false));
            out.push((chars_range_to_string(&cs, a, b), true));
            out.push((chars_range_to_string(&cs, b, n), false));
            proof {
                assert(pieces_view(out@) =~= range_pieces(text@, a as int, b as int));
            }
        },
        Matches::NoMatches => {
            out.push((text.to_owned(), false));
            proof {
                assert(pieces_view(out@) =~= seq![(text@, false)]);
            }
        },
    }
    out
}

//------------------------------------------------------------------------------
// Styled spans

/// Which characters of styled spans are highlighted: those at the given
/// indices, those in a range (the characters before and after it kept apart),
/// or none (the spans are kept as they are).
pub enum Highlight {
    Indices(Vec<usize>),
    Range(usize, usize),
    Plain,
}

/// The class of the character at index `i`: 1 when highlighted, 0 or 2 when
/// not (2 for characters after a range).
pub open spec fn highlight_class(h: Highlight, i: int) -> int {
    match h {
        Highlight::Indices(v) => if v@.contains(i as usize) && 0 <= i {
            1
        } else {
            0
        },
        Highlight::Range(s, e) => if i < s {
            0
        } else if i < e {
            1
        } else {
            2
        },
        Highlight::Plain => 0,
    }
}

/// A span's text cut into runs of characters of the same class, the span's
/// first character being character `base` of the line.
pub open spec fn span_runs(t: Seq<char>, base: int, h: Highlight) -> Seq<(Seq<char>, int)>
    decreases t.len(),
{
    if t.len() == 0 {
        Seq::empty()
    } else {
        let prev = span_runs(t.drop_last(), base, h);
        let c = highlight_class(h, base + t.len() - 1);
        if prev.len() > 0 && prev.last().1 == c {
            prev.update(prev.len() - 1, (prev.last().0.push(t.last()), c))
        } else {
            prev.push((seq![t.last()], c))
        }
    }
}

/// The number of characters in the first `k` spans.
pub open spec fn chars_before_span(spans: Seq<Seq<char>>, k: int) -> int
    decreases k,
{
    if k <= 0 {
        0
    } else {
        chars_before_span(spans, k - 1) + spans[k - 1].len()
    }
}

/// The pieces of the first `k` spans: each span's runs, tagged with the
/// span's index and whether they are highlighted.
pub open spec fn span_pieces(spans: Seq<Seq<char>>, h: Highlight, k: int) -> Seq<(usize, Seq<char>, bool)>
    decreases k,
{
    if k <= 0 {
        Seq::empty()
    } else {
        span_pieces(spans, h, k - 1) + span_runs(spans[k - 1], chars_before_span(spans, k - 1), h).map_values(
            |p: (Seq<char>, int)| ((k - 1) as usize, p.0, p.1 == 1),
        )
    }
}

/// The pieces for a highlight: with nothing highlighted each span as it is,
/// else the runs of each span.
pub open spec fn spec_highlight_pieces(spans: Seq<Seq<char>>, h: Highlight) -> Seq<(usize, Seq<char>, bool)> {
    match h {
        Highlight::Plain => Seq::new(spans.len(), |i: int| (i as usize, spans[i], false)),
        _ => span_pieces(spans, h, spans.len() as int),
    }
}

pub open spec fn strings_view(v: Seq<String>) -> Seq<Seq<char>> {
    v.map_values(|s: String| s@)
}

pub open spec fn tagged_view(v: Seq<(usize, String, bool)>) -> Seq<(usize, Seq<char>, bool)> {
    v.map_values(|p: (usize, String, bool)| (p.0, p.1@, p.2))
}

fn highlight_class_of(h: &Highlight, i: usize) -> (r: u8)
    ensures
        r == highlight_class(*h, i as int),
{
    match h {
        Highlight::Indices(v) => {
            let mut k: usize = 0;
            while k < v.len()
                invariant
                    k <= v@.len(),
                    *h == Highlight::Indices(*v),
                    forall|q: int| 0 <= q < k ==> v@[q] != i,
                decreases v@.len() - k,
            {
                if v[k] == i {
                    assert(v@[k as int] == i);
                    assert(v@.contains(i));
                    return 1;
                }
                k += 1;
            }
            0
        },
        Highlight::Range(s, e) => if i < *s {
            0
        } else if i < *e {
            1
        } else {
            2
        },
        Highlight::Plain => 0,
    }
}

/// The characters in the first spans never outnumber those in more spans.
proof fn lemma_chars_before_span_mono(spans: Seq<Seq<char>>, k: int, n: int)
    requires
        0 <= k <= n,
    ensures
        chars_before_span(spans, k) <= chars_before_span(spans, n),
    decreases n - k,
{
    if k < n {
        lemma_chars_before_span_mono(spans, k, n - 1);
    }
}

pub open spec fn runs_view(v: Seq<(String, u8)>) -> Seq<(Seq<char>, int)> {
    v.map_values(|p: (String, u8)| (p.0@, p.1 as int))
}

/// Cuts the text of one span into runs of characters of the same class, the
/// span starting at character `base` of the line.
fn span_runs_of(cs: &Vec<char>, base: usize, h: &Highlight) -> (r: Vec<(String, u8)>)
    requires
        base + cs@.len() <= usize::MAX,
    ensures
        runs_view(r@) == span_runs(cs@, base as int, *h),
{
    let mut runs: Vec<(String, u8)> = Vec::new();
    let mut q: usize = 0;
    while q < cs.len()
        invariant
            q <= cs@.len(),
            base + cs@.len() <= usize::MAX,
            runs_view(runs@) == span_runs(cs@.take(q as int), base as int, *h),
        decreases cs@.len() - q,
    {
        let c = highlight_class_of(h, base + q);
        let ch = cs[q];
        let ghost before = runs@;
        proof {
            assert(cs@.take(q + 1).drop_last() =~= cs@.take(q as int));
            assert(cs@.take(q + 1).last() == ch);
        }
        let n = runs.len();
        if n > 0 && runs[n - 1].1 == c {
            let (mut last, cc) = runs.pop().unwrap();
            string_push(&mut last, ch);
            runs.push((last, cc));
            proof {
                assert(runs_view(runs@) =~= runs_view(before).update(
                    runs_view(before).len() - 1,
                    (runs_view(before).last().0.push(ch), c as int),
                ));
            }
        } else {
            let mut fresh = String::new();
            string_push(&mut fresh, ch);
            runs.push((fresh, c));
            proof {
                assert(fresh@ =~= seq![ch]);
                assert(runs_view(runs@) =~= runs_view(before).push((seq![ch], c as int)));
            }
        }
        q += 1;
    }
    assert(cs@.take(cs@.len() as int) =~= cs@);
    runs
}

/// Cuts styled spans into plain and highlighted pieces, each tagged with the
/// index of the span it comes from (whose style it keeps).
pub fn highlight_pieces(spans: &Vec<String>, h: &Highlight) -> (r: Vec<(usize, String, bool)>)
    requires
        chars_before_span(strings_view(spans@), spans@.len() as int) <= usize::MAX,
    ensures
        tagged_view(r@) == spec_highlight_pieces(strings_view(spans@), *h),
{
    let ghost sv = strings_view(spans@);
    let mut out: Vec<(usize, String, bool)> = Vec::new();
    match h {
        Highlight::Plain => {
            let mut k: usize = 0;
            while k < spans.len()
                invariant
                    k <= spans@.len(),
                    sv == strings_view(spans@),
                    tagged_view(out@) == Seq::new(k as nat, |i: int| (i as usize, sv[i], false)),
                decreases spans@.len() - k,
            {
                let ghost before = out@;
                let item = spans[k].clone();
                assert(item@ == sv[k as int]);
                out.push((k, item, false));
                assert(tagged_view(out@) =~= tagged_view(before).push((k, sv[k as int], false)));
                assert(tagged_view(out@) =~= Seq::new((k + 1) as nat, |i: int| (i as usize, sv[i], false)));
                k += 1;
            }
            return out;
        },
        _ => {},
    }
    let mut base: usize = 0;
    let mut k: usize = 0;
    while k < spans.len()
        invariant
            k <= spans@.len(),
            sv == strings_view(spans@),
            sv.len() == spans@.len(),
            !(*h is Plain),
            chars_before_span(sv, spans@.len() as int) <= usize::MAX,
            base == chars_before_span(sv, k as int),
            tagged_view(out@) == span_pieces(sv, *h, k as int),
        decreases spans@.len() - k,
    {
        let cs = str_to_chars(spans[k].as_str());
        proof {
            assert(cs@ == sv[k as int]);
            lemma_chars_before_span_mono(sv, k + 1, spans@.len() as int);
        }
        let runs = span_runs_of(&cs, base, h);
        let ghost before = out@;
        let mut q: usize = 0;
        while q < runs.len()
            invariant
                q <= runs@.len(),
                tagged_view(out@) == tagged_view(before) + runs_view(runs@).take(q as int).map_values(
                    |p: (Seq<char>, int)| (k, p.0, p.1 == 1),
                ),
            decreases runs@.len() - q,
        {
            let text = runs[q].0.clone();
            let class = runs[q].1;
            let ghost prev = out@;
            assert(text@ == runs_view(runs@)[q as int].0);
            out.push((k, text, class == 1));
            proof {
                assert(tagged_view(out@) =~= tagged_view(prev).push((k, runs_view(runs@)[q as int].0, class == 1)));
                assert(tagged_view(out@) =~= tagged_view(before) + runs_view(runs@).take(q + 1).map_values(
                    |p: (Seq<char>, int)| (k, p.0, p.1 == 1),
                ));
            }
            q += 1;
        }
        proof {
            assert(runs_view(runs@).take(runs@.len() as int) =~= runs_view(runs@));
            assert(tagged_view(out@) =~= span_pieces(sv, *h, k + 1));
        }
        base = base + cs.len();
        k += 1;
    }
    proof {
        assert(tagged_view(out@) == span_pieces(sv, *h, sv.len() as int));
    }
    out
}

/// The characters an ANSI item highlights for a byte range of its text: the
/// characters before each end when that end is a character boundary, else 0
/// for the start and the whole text for the end.
pub open spec fn spec_char_bounds(cs: Seq<char>, start: usize, end: usize) -> (int, int) {
    (
        if is_boundary(cs, start as int) {
            chars_before_byte(cs, start as int)
        } else {
            0
        },
        if is_boundary(cs, end as int) {
            chars_before_byte(cs, end as int)
        } else {
            cs.len() as int
        },
    )
}

/// Whether byte `b` is a character boundary of the text whose character
/// offsets are `offsets`, and the characters before it.
fn boundary_chars(offsets: &Vec<usize>, b: usize, Ghost(s): Ghost<Seq<char>>) -> (r: (bool, usize))
    requires
        offsets@.len() == s.len() + 1,
        forall|k: int| 0 <= k <= s.len() ==> #[trigger] offsets@[k] == byte_len(s.take(k)),
    ensures
        r.0 == is_boundary(s, b as int),
        r.1 == chars_before_byte(s, b as int),
{
    let a = count_chars_before(offsets, b, Ghost(s));
    let ok = offsets[a] == b;
    proof {
        if is_boundary(s, b as int) {
            crate::engine::util::lemma_boundary_chars(s, b as int);
        }
        if ok {
            assert(byte_len(s.take(a as int)) == b);
        }
    }
    (ok, a)
}

/// The character range to highlight for a byte range of the text.
pub fn char_bounds(text: &str, start: usize, end: usize) -> (r: (usize, usize))
    ensures
        (r.0 as int, r.1 as int) == spec_char_bounds(text@, start, end),
{
    let offsets = char_byte_offsets(text);
    let n = str_to_chars(text).len();
    let (s_ok, s_chars) = boundary_chars(&offsets, start, Ghost(text@));
    let (e_ok, e_chars) = boundary_chars(&offsets, end, Ghost(text@));
    (
        if s_ok {
            s_chars
        } else {
            0
        },
        if e_ok {
            e_chars
        } else {
            n
        },
    )
}

/// The characters of a span that stay visible: those whose index (the span
/// starting at character `base`) the map gives a visible position.
pub open spec fn visible_chars(t: Seq<char>, base: int, map: Seq<Option<usize>>) -> Seq<char>
    decreases t.len(),
{
    if t.len() == 0 {
        Seq::empty()
    } else {
        let prev = visible_chars(t.drop_last(), base, map);
        let i = base + t.len() - 1;
        if 0 <= i < map.len() && map[i] is Some {
            prev.push(t.last())
        } else {
            prev
        }
    }
}

/// The spans among the first `k` with visible characters left, each with its
/// index and those characters.
pub open spec fn visible_spans(spans: Seq<Seq<char>>, map: Seq<Option<usize>>, k: int) -> Seq<(usize, Seq<char>)>
    decreases k,
{
    if k <= 0 {
        Seq::empty()
    } else {
        let prev = visible_spans(spans, map, k - 1);
        let v = visible_chars(spans[k - 1], chars_before_span(spans, k - 1), map);
        if v.len() > 0 {
            prev.push(((k - 1) as usize, v))
        } else {
            prev
        }
    }
}

pub open spec fn indexed_view(v: Seq<(usize, String)>) -> Seq<(usize, Seq<char>)> {
    v.map_values(|p: (usize, String)| (p.0, p.1@))
}

/// Drops the hidden characters from styled spans, keeping each surviving span's
/// index (for its style); spans left empty are dropped.
pub fn retain_visible_spans(spans: &Vec<String>, map: &[Option<usize>]) -> (r: Vec<(usize, String)>)
    requires
        chars_before_span(strings_view(spans@), spans@.len() as int) <= usize::MAX,
    ensures
        indexed_view(r@) == visible_spans(strings_view(spans@), map@, spans@.len() as int),
{
    let ghost sv = strings_view(spans@);
    let mut out: Vec<(usize, String)> = Vec::new();
    let mut base: usize = 0;
    let mut k: usize = 0;
    while k < spans.len()
        invariant
            k <= spans@.len(),
            sv == strings_view(spans@),
            sv.len() == spans@.len(),
            chars_before_span(sv, spans@.len() as int) <= usize::MAX,
            base == chars_before_span(sv, k as int),
            indexed_view(out@) == visible_spans(sv, map@, k as int),
        decreases spans@.len() - k,
    {
        let cs = str_to_chars(spans[k].as_str());
        proof {
            assert(cs@ == sv[k as int]);
            lemma_chars_before_span_mono(sv, k + 1, spans@.len() as int);
        }
        let mut content = String::new();
        let mut q: usize = 0;
        while q < cs.len()
            invariant
                q <= cs@.len(),
                base + cs@.len() <= usize::MAX,
                content@ == visible_chars(cs@.take(q as int), base as int, map@),
            decreases cs@.len() - q,
        {
            let i = base + q;
            proof {
                assert(cs@.take(q + 1).drop_last() =~= cs@.take(q as int));
            }
            if i < map.len() && map[i].is_some() {
                string_push(&mut content, cs[q]);
            }
            q += 1;
        }
        proof {
            assert(cs@.take(cs@.len() as int) =~= cs@);
        }
        let ghost before = out@;
        if cs.len() > 0 && content_nonempty(&content) {
            out.push((k, content));
            proof {
                assert(indexed_view(out@) =~= indexed_view(before).push((k, visible_chars(sv[k as int], base as int, map@))));
            }
        }
        base = base + cs.len();
        k += 1;
    }
    out
}

fn content_nonempty(s: &String) -> (r: bool)
    ensures
        r == (s@.len() > 0),
{
    !s.as_str().is_empty()
}

} // verus!
