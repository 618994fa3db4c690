use std::borrow::Cow;

use skim::engine::exact::{ExactEngine, ExactMatchingParam};
use skim::{CaseMatching, MatchEngine, MatchRange, SkimItem};

fn engine(query: &str, param: ExactMatchingParam) -> ExactEngine {
    ExactEngine::builder(query, param).build()
}

fn param(prefix: bool, postfix: bool, inverse: bool, case: CaseMatching) -> ExactMatchingParam {
    let mut p = ExactMatchingParam::default();
    p.prefix = prefix;
    p.postfix = postfix;
    p.inverse = inverse;
    p.case = case;
    p
}

#[test]
fn case_respect_is_sensitive() {
    let e = engine("Foo", param(false, false, false, CaseMatching::Respect));
    assert!(e.match_item(&"a Foo b".to_string()).is_some());
    assert!(e.match_item(&"a foo b".to_string()).is_none());
}

#[test]
fn case_ignore_is_insensitive() {
    let e = engine("Foo", param(false, false, false, CaseMatching::Ignore));
    assert!(e.match_item(&"a foo b".to_string()).is_some());
    assert!(e.match_item(&"a FOO b".to_string()).is_some());
}

#[test]
fn case_smart_uppercase_query_is_sensitive() {
    let e = engine("Foo", param(false, false, false, CaseMatching::Smart));
    assert!(e.match_item(&"Foo".to_string()).is_some());
    assert!(e.match_item(&"foo".to_string()).is_none());
}

#[test]
fn prefix_and_postfix_anchors() {
    let prefix = engine("foo", param(true, false, false, CaseMatching::Ignore));
    assert!(prefix.match_item(&"foobar".to_string()).is_some());
    assert!(prefix.match_item(&"barfoo".to_string()).is_none());

    let postfix = engine("foo", param(false, true, false, CaseMatching::Ignore));
    assert!(postfix.match_item(&"barfoo".to_string()).is_some());
    assert!(postfix.match_item(&"foobar".to_string()).is_none());
}

#[test]
fn inverse_match_excludes_query() {
    let e = engine("foo", param(false, false, true, CaseMatching::Ignore));
    // Inverse: items WITHOUT the query match.
    assert!(e.match_item(&"bar".to_string()).is_some());
    assert!(e.match_item(&"foo".to_string()).is_none());
}

/// An item exposing explicit matching ranges, as `--nth` produces.
struct RangedItem {
    text: String,
    ranges: Vec<(usize, usize)>,
}

impl SkimItem for RangedItem {
    fn spec_text(&self) -> vstd::seq::Seq<char> {
        unreachable!("used only in proofs")
    }

    fn spec_matching_ranges(&self) -> Option<vstd::seq::Seq<(usize, usize)>> {
        unreachable!("used only in proofs")
    }

    fn text(&self) -> Cow<'_, str> {
        Cow::Borrowed(&self.text)
    }

    fn get_matching_ranges(&self) -> Option<&[(usize, usize)]> {
        Some(&self.ranges)
    }
}

#[test]
fn inverse_match_checks_every_matching_range() {
    // `--nth 1,2` over "foo bar" yields two ranges: "foo" and "bar".  An inverse
    // query `!foo` must reject the item because one of the ranges contains "foo",
    // even though the *first* range scanned may not.
    let e = engine("foo", param(false, false, true, CaseMatching::Ignore));

    let foo_in_first_range = RangedItem {
        text: "foo bar".to_string(),
        ranges: vec![(0, 3), (4, 7)],
    };
    assert!(
        e.match_item(&foo_in_first_range).is_none(),
        "item whose first field contains the query must not match an inverse query"
    );

    let foo_in_second_range = RangedItem {
        text: "bar foo".to_string(),
        ranges: vec![(0, 3), (4, 7)],
    };
    assert!(
        e.match_item(&foo_in_second_range).is_none(),
        "item whose second field contains the query must not match an inverse query"
    );

    let no_foo = RangedItem {
        text: "bar baz".to_string(),
        ranges: vec![(0, 3), (4, 7)],
    };
    assert!(
        e.match_item(&no_foo).is_some(),
        "item where no field contains the query must match an inverse query"
    );
}

#[test]
fn inverse_match_with_no_matching_range_does_not_match() {
    // Every `--nth` index out of range leaves the item with no range at all;
    // there is nothing to match against, so the item stays unmatched.
    let e = engine("foo", param(false, false, true, CaseMatching::Ignore));
    let item = RangedItem {
        text: "bar baz".to_string(),
        ranges: vec![],
    };
    assert!(e.match_item(&item).is_none());
}

#[test]
fn exact_tests_empty_query_matches_everything() {
    let e = engine("", ExactMatchingParam::default());
    let result = e.match_item(&"anything".to_string()).unwrap();
    assert_eq!(result.matched_range, MatchRange::ByteRange(0, 0));
}

#[test]
fn display_shows_query_and_inverse_marker() {
    let plain = engine("foo", param(false, false, false, CaseMatching::Respect));
    assert_eq!(plain.describe(), "(Exact|foo)");

    let inverse = engine("foo", param(false, false, true, CaseMatching::Respect));
    assert!(inverse.describe().starts_with("(Exact|!"));
}

#[test]
fn exact_match_reports_byte_range_and_length_score() {
    let e = engine("bar", param(false, false, false, CaseMatching::Respect));
    let result = e.match_item(&"foo bar bar".to_string()).unwrap();
    assert_eq!(result.matched_range, MatchRange::ByteRange(4, 7));
    assert_eq!(result.rank.score, 3);
    assert_eq!(result.rank.begin, 4);
    assert_eq!(result.rank.end, 7);
}

#[test]
fn exact_match_offsets_are_in_whole_text_for_later_range() {
    let e = engine("é", param(false, false, false, CaseMatching::Respect));
    let item = RangedItem {
        text: "éa bé".to_string(),
        ranges: vec![(3, 6)],
    };
    let result = e.match_item(&item).unwrap();
    assert_eq!(result.matched_range, MatchRange::ByteRange(5, 7));
}

#[test]
fn exact_query_meta_characters_are_literal() {
    let e = engine("a.b", param(false, false, false, CaseMatching::Respect));
    assert!(e.match_item(&"xa.by".to_string()).is_some());
    assert!(e.match_item(&"xazby".to_string()).is_none());
    assert_eq!(e.describe(), "(Exact|a\\.b)");
}

#[test]
fn exact_ignore_case_pattern_is_marked() {
    let e = engine("foo", param(true, true, false, CaseMatching::Ignore));
    assert_eq!(e.describe(), "(Exact|(?i)^foo$)");
}
