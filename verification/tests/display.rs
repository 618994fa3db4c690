use skim::display::{char_bounds, highlight_pieces, line_pieces, retain_visible_spans, Highlight};
use skim::Matches;

/// The text of all pieces, and the text of the highlighted ones.
fn texts(pieces: &[(String, bool)]) -> (String, String) {
    let all: String = pieces.iter().map(|(s, _)| s.as_str()).collect();
    let hl: String = pieces.iter().filter(|(_, h)| *h).map(|(s, _)| s.as_str()).collect();
    (all, hl)
}

#[test]
fn to_line_char_indices_highlights_individual_chars() {
    let pieces = line_pieces("abcd", &Matches::CharIndices(vec![0, 2]));
    assert_eq!(texts(&pieces), ("abcd".to_string(), "ac".to_string()));
}

#[test]
fn to_line_char_range_highlights_span() {
    let pieces = line_pieces("abcd", &Matches::CharRange(1, 3));
    assert_eq!(texts(&pieces), ("abcd".to_string(), "bc".to_string()));
}

#[test]
fn to_line_byte_range_highlights_span() {
    let pieces = line_pieces("abcd", &Matches::ByteRange(1, 3));
    assert_eq!(texts(&pieces), ("abcd".to_string(), "bc".to_string()));
}

#[test]
fn to_line_none_has_no_highlight() {
    let pieces = line_pieces("abcd", &Matches::NoMatches);
    assert_eq!(pieces, vec![("abcd".to_string(), false)]);
}

#[test]
fn line_pieces_index_past_end_highlights_nul() {
    let pieces = line_pieces("ab", &Matches::CharIndices(vec![1, 5]));
    assert_eq!(
        pieces,
        vec![
            ("a".to_string(), false),
            ("b".to_string(), true),
            (String::new(), false),
            ("\0".to_string(), true),
            (String::new(), false),
        ]
    );
}

#[test]
fn line_pieces_byte_range_counts_multibyte_chars() {
    // "é" is two bytes; bytes 1..3 are exactly that character.
    let pieces = line_pieces("aéb", &Matches::ByteRange(1, 3));
    assert_eq!(
        pieces,
        vec![("a".to_string(), false), ("é".to_string(), true), ("b".to_string(), false)]
    );
}

#[test]
fn highlight_pieces_split_runs_within_spans() {
    let spans = vec!["ab".to_string(), "cde".to_string()];
    let pieces = highlight_pieces(&spans, &Highlight::Indices(vec![1, 2, 4]));
    assert_eq!(
        pieces,
        vec![
            (0, "a".to_string(), false),
            (0, "b".to_string(), true),
            (1, "c".to_string(), true),
            (1, "d".to_string(), false),
            (1, "e".to_string(), true),
        ]
    );
}

#[test]
fn highlight_pieces_range_keeps_before_and_after_apart() {
    let spans = vec!["abcdef".to_string()];
    let pieces = highlight_pieces(&spans, &Highlight::Range(2, 2));
    assert_eq!(pieces, vec![(0, "ab".to_string(), false), (0, "cdef".to_string(), false)]);
    let pieces = highlight_pieces(&spans, &Highlight::Range(1, 3));
    assert_eq!(
        pieces,
        vec![(0, "a".to_string(), false), (0, "bc".to_string(), true), (0, "def".to_string(), false)]
    );
}

#[test]
fn highlight_pieces_plain_keeps_spans() {
    let spans = vec!["ab".to_string(), String::new()];
    let pieces = highlight_pieces(&spans, &Highlight::Plain);
    assert_eq!(pieces, vec![(0, "ab".to_string(), false), (1, String::new(), false)]);
}

#[test]
fn char_bounds_falls_back_off_boundaries() {
    assert_eq!(char_bounds("aéb", 1, 3), (1, 2));
    // byte 2 is inside 'é': the start falls back to 0, the end to the whole text.
    assert_eq!(char_bounds("aéb", 2, 2), (0, 3));
    assert_eq!(char_bounds("ab", 0, 9), (0, 2));
}

#[test]
fn retain_visible_spans_drops_hidden_chars_and_empty_spans() {
    let spans = vec!["ab".to_string(), "cd".to_string(), "e".to_string()];
    let map = vec![Some(0), None, None, None, Some(1)];
    assert_eq!(
        retain_visible_spans(&spans, &map),
        vec![(0, "a".to_string()), (2, "e".to_string())]
    );
}
