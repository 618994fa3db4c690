use skim::fuzzy_matcher::fzy::FzyMatcher;
use skim::fuzzy_matcher::skim_v3::SkimV3Matcher;
use skim::fuzzy_matcher::{fuzzy_match_from_indices, FuzzyMatcher, MatchIndices};

/// A matcher that only computes `fuzzy_indices`: its `fuzzy_match` is the
/// score of `fuzzy_indices`, and `fuzzy_match_range` is the default.
struct StubMatcher;

impl FuzzyMatcher for StubMatcher {
    fn spec_fuzzy_score(&self, _choice: vstd::seq::Seq<char>, _pattern: vstd::seq::Seq<char>) -> Option<i64> {
        unreachable!("used only in proofs")
    }

    fn spec_fuzzy_indices(&self, _choice: vstd::seq::Seq<char>, _pattern: vstd::seq::Seq<char>) -> vstd::seq::Seq<usize> {
        unreachable!("used only in proofs")
    }

    fn spec_fuzzy_match(&self, _choice: vstd::seq::Seq<char>, _pattern: vstd::seq::Seq<char>) -> Option<i64> {
        unreachable!("used only in proofs")
    }

    fn fuzzy_match(&self, choice: &str, pattern: &str) -> Option<i64> {
        fuzzy_match_from_indices(self, choice, pattern)
    }

    fn fuzzy_indices(&self, choice: &str, pattern: &str) -> Option<(i64, MatchIndices)> {
        if pattern.is_empty() {
            return Some((0, vec![]));
        }
        // Match only when the pattern is a prefix of the choice.
        if choice.starts_with(pattern) {
            Some((10, (0..pattern.chars().count()).collect()))
        } else {
            None
        }
    }
}

#[test]
fn default_fuzzy_match_uses_indices_score() {
    assert_eq!(StubMatcher.fuzzy_match("hello", "he"), Some(10));
    assert_eq!(StubMatcher.fuzzy_match("hello", "xy"), None);
}

#[test]
fn default_fuzzy_match_range_spans_first_to_last() {
    assert_eq!(StubMatcher.fuzzy_match_range("hello", "hel"), Some((10, 0, 2)));
    assert_eq!(StubMatcher.fuzzy_match_range("hello", "zz"), None);
}

#[test]
fn default_fuzzy_match_range_empty_indices_default_to_zero() {
    // Empty pattern yields an empty index list, so begin/end fall back to 0.
    assert_eq!(StubMatcher.fuzzy_match_range("hello", ""), Some((0, 0, 0)));
}

#[test]
fn multichar_lowercase_stays_in_bounds() {
    let fzy = FzyMatcher::default();
    let v3 = SkimV3Matcher::default();
    let matchers: [(&str, &dyn FuzzyMatcher); 2] = [("fzy", &fzy), ("skim_v3", &v3)];
    let cases = [
        ("Jİ:I", "İ:İ"),
        ("I", "İ"),
        ("İ", "I"),
        ("i", "İ"),
        ("İ", "i"),
        ("Jİ:Iİ", "İİ"),
        ("straße", "STRASSE"),
        ("ﬄy", "ffl"),
    ];
    for (choice, pattern) in cases {
        let num_chars = choice.chars().count();
        for (name, matcher) in matchers {
            if let Some((_score, indices)) = matcher.fuzzy_indices(choice, pattern) {
                for idx in indices {
                    assert!(idx < num_chars, "{name}: index {idx} out of bounds for {choice:?}");
                }
            }
        }
    }
}
