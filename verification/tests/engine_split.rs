use skim::engine::exact::{ExactEngine, ExactMatchingParam};
use skim::engine::split::{split_query, SplitMatchEngine};
use skim::{MatchEngine, MatchRange, MatchResult, Rank, SkimItem};

/// A stub engine that returns a fixed match range, regardless of the item.
struct StubEngine(MatchRange);

impl MatchEngine for StubEngine {
    fn spec_match(
        &self,
        _text: vstd::seq::Seq<char>,
        _ranges: Option<vstd::seq::Seq<(usize, usize)>>,
    ) -> Option<(Rank, skim::SpecMatchRange)> {
        unreachable!("used only in proofs")
    }

    fn match_text(&self, _text: &str, _ranges: Option<&[(usize, usize)]>) -> Option<MatchResult> {
        Some(MatchResult {
            rank: Rank::default(),
            matched_range: self.0.clone(),
        })
    }

    fn spec_describe(&self) -> vstd::seq::Seq<char> {
        unreachable!("used only in proofs")
    }

    fn describe(&self) -> String {
        "Stub".to_string()
    }
}

fn exact(query: &str) -> Box<dyn MatchEngine> {
    Box::new(ExactEngine::builder(query, ExactMatchingParam::default()).build())
}

#[test]
fn no_delimiter_in_item_returns_none() {
    let engine = SplitMatchEngine::new(exact("a"), exact("b"), ':');
    assert!(engine.match_item(&"no delimiter here".to_string()).is_none());
}

#[test]
fn matches_both_sides_of_delimiter() {
    let engine = SplitMatchEngine::new(exact("ab"), exact("cd"), ':');
    let result = engine.match_item(&"ab:cd".to_string());
    assert!(result.is_some());
}

#[test]
fn char_range_results_are_offset_and_combined() {
    // Before matches chars 0..2 of "ab"; after matches chars 0..2 of "cd"
    // which become 3..5 after the delimiter offset.
    let engine = SplitMatchEngine::new(
        Box::new(StubEngine(MatchRange::CharRange(0, 2))),
        Box::new(StubEngine(MatchRange::CharRange(0, 2))),
        ':',
    );
    let result = engine.match_item(&"ab:cd".to_string()).unwrap();
    assert_eq!(result.matched_range, MatchRange::Chars(vec![0, 1, 3, 4]));
}

#[test]
fn after_engine_failure_returns_none() {
    let engine = SplitMatchEngine::new(exact("ab"), exact("zzz"), ':');
    assert!(engine.match_item(&"ab:cd".to_string()).is_none());
}

#[test]
fn byte_range_results_drop_chars_outside_range() {
    // ByteRange(1, 2) over the three-char "abc"/"def" parts covers only the
    // middle byte: 'a'/'d' (byte 0) fail the `>= start` check, 'c'/'f'
    // (byte 2) fail the `< end` check, so only 'b'/'e' survive.
    let engine = SplitMatchEngine::new(
        Box::new(StubEngine(MatchRange::ByteRange(1, 2))),
        Box::new(StubEngine(MatchRange::ByteRange(1, 2))),
        ':',
    );
    let result = engine.match_item(&"abc:def".to_string()).unwrap();
    // before: char 1 ('b'); after: char 1 of "def" offset past "abc:" → char 5 ('e').
    assert_eq!(result.matched_range, MatchRange::Chars(vec![1, 5]));
}

#[test]
fn byte_range_results_include_chars_within_range() {
    // ByteRange(0, 2) covers both chars of each part, so nothing is dropped.
    let engine = SplitMatchEngine::new(
        Box::new(StubEngine(MatchRange::ByteRange(0, 2))),
        Box::new(StubEngine(MatchRange::ByteRange(0, 2))),
        ':',
    );
    let result = engine.match_item(&"ab:cd".to_string()).unwrap();
    assert_eq!(result.matched_range, MatchRange::Chars(vec![0, 1, 3, 4]));
}

#[test]
fn display_shows_both_engines_and_delimiter() {
    let engine = SplitMatchEngine::new(exact("a"), exact("b"), ':');
    let s = engine.describe();
    assert!(s.starts_with("(Split[:]:"));
}

#[test]
fn split_uses_first_delimiter_and_counts_chars() {
    // The delimiter is searched by character: "é" takes two bytes but one
    // index, and the second ':' belongs to the part after the first.
    let engine = SplitMatchEngine::new(
        Box::new(StubEngine(MatchRange::Chars(vec![0]))),
        Box::new(StubEngine(MatchRange::Chars(vec![0, 2]))),
        ':',
    );
    let result = engine.match_item(&"é:x:y".to_string()).unwrap();
    assert_eq!(result.matched_range, MatchRange::Chars(vec![0, 2, 4]));
}

#[test]
fn split_rank_comes_from_before_part() {
    let engine = SplitMatchEngine::new(exact("abc"), exact("d"), '|');
    let result = engine.match_item(&"xabc|d".to_string()).unwrap();
    assert_eq!(result.rank.score, 3);
    assert_eq!(result.rank.begin, 1);
    assert_eq!(result.matched_range, MatchRange::Chars(vec![1, 2, 3, 5]));
}

#[test]
fn split_query_cuts_at_first_delimiter() {
    assert_eq!(split_query("ab:cd:e", ':'), Some(("ab".to_string(), "cd:e".to_string())));
    assert_eq!(split_query("abc", ':'), None);
    assert_eq!(split_query(":", ':'), Some((String::new(), String::new())));
}

struct Plain(String);

impl SkimItem for Plain {
    fn spec_text(&self) -> vstd::seq::Seq<char> {
        unreachable!("used only in proofs")
    }

    fn spec_matching_ranges(&self) -> Option<vstd::seq::Seq<(usize, usize)>> {
        unreachable!("used only in proofs")
    }

    fn text(&self) -> std::borrow::Cow<'_, str> {
        std::borrow::Cow::Borrowed(&self.0)
    }

    fn get_matching_ranges(&self) -> Option<&[(usize, usize)]> {
        Some(&[(0, 1)])
    }
}

#[test]
fn split_ignores_item_matching_ranges() {
    let engine = SplitMatchEngine::new(exact("a"), exact("b"), ':');
    assert!(engine.match_item(&Plain("a:b".to_string())).is_some());
}

#[test]
fn describe_names_delimiter_and_both_engines() {
    let engine = SplitMatchEngine::new(exact("a"), exact("b"), ':');
    assert_eq!(engine.describe(), "(Split[:]: (Exact|(?i)a) | (Exact|(?i)b))");
}
