use skim::{MatchRange, MatchResult, Rank, Typos};

#[test]
fn typos_from_usize() {
    assert_eq!(Typos::from(0), Typos::Disabled);
    assert_eq!(Typos::from(3), Typos::Fixed(3));
}

#[test]
fn match_result_range_char_indices_variants() {
    let byte = MatchResult {
        rank: Rank::default(),
        matched_range: MatchRange::ByteRange(1, 3),
    };
    assert_eq!(byte.range_char_indices("abcd"), vec![1, 2]);

    let char_range = MatchResult {
        rank: Rank::default(),
        matched_range: MatchRange::CharRange(1, 3),
    };
    assert_eq!(char_range.range_char_indices("abcd"), vec![1, 2]);

    let chars = MatchResult {
        rank: Rank::default(),
        matched_range: MatchRange::Chars(vec![0, 3]),
    };
    assert_eq!(chars.range_char_indices("abcd"), vec![0, 3]);
}

#[test]
fn byte_range_over_multibyte_text_counts_chars() {
    // "é" takes two bytes: bytes 1..4 cover 'é' and 'b', chars 1 and 2.
    let byte = MatchResult {
        rank: Rank::default(),
        matched_range: MatchRange::ByteRange(1, 4),
    };
    assert_eq!(byte.range_char_indices("aéb"), vec![1, 2]);
    let one = MatchResult {
        rank: Rank::default(),
        matched_range: MatchRange::ByteRange(1, 3),
    };
    assert_eq!(one.range_char_indices("aéb"), vec![1]);
}
