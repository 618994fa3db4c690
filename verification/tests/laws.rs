use skim::display::line_pieces;
use skim::engine::andor::{AndEngine, OrEngine};
use skim::engine::exact::{ExactEngine, ExactMatchingParam};
use skim::helper::item::strip_ansi;
use skim::{CaseMatching, MatchEngine, Matches};

fn exact(query: &str, inverse: bool) -> Box<dyn MatchEngine> {
    let mut p = ExactMatchingParam::default();
    p.inverse = inverse;
    p.case = CaseMatching::Respect;
    Box::new(ExactEngine::builder(query, p).build())
}

fn joined(text: &str, m: &Matches) -> String {
    line_pieces(text, m).into_iter().map(|(s, _)| s).collect()
}

#[test]
fn line_pieces_put_back_together_give_the_line() {
    let text = "h\u{e9}llo w\u{f6}rld";
    for m in [
        Matches::NoMatches,
        Matches::CharIndices(vec![0, 2, 9]),
        Matches::CharRange(3, 7),
        Matches::CharRange(4, 40),
        Matches::ByteRange(1, 3),
        Matches::ByteRange(0, 100),
    ] {
        assert_eq!(joined(text, &m), text);
    }
}

#[test]
fn line_pieces_index_past_the_end_shows_a_nul() {
    assert_eq!(joined("ab", &Matches::CharIndices(vec![1, 5])), "ab\0");
}

#[test]
fn strip_ansi_twice_is_stripping_once() {
    for text in ["\x1b[31mred\x1b[0m", "a\x1b\x1b[1mb", "\x1b]0;t\x07x\x1b", "plain text"] {
        let once = strip_ansi(text).0;
        assert!(!once.contains('\x1b'));
        assert_eq!(strip_ansi(&once).0, once);
    }
    assert_eq!(strip_ansi("no escapes \0 here").0, "no escapes \0 here");
}

#[test]
fn inverse_engine_matches_where_the_plain_one_does_not() {
    for text in ["foo bar", "bar", "", "xfoox"] {
        let item = text.to_string();
        let plain = exact("foo", false).match_item(&item).is_some();
        let inverse = exact("foo", true).match_item(&item).is_some();
        assert_ne!(plain, inverse, "on {text:?}");
    }
}

#[test]
fn or_matches_when_one_term_does_and_and_when_all_do() {
    let item = "alpha beta".to_string();
    let or = OrEngine::builder().engines(vec![exact("zeta", false), exact("beta", false)]).build();
    assert!(or.match_item(&item).is_some());
    let or = OrEngine::builder().engines(vec![exact("zeta", false), exact("eta2", false)]).build();
    assert!(or.match_item(&item).is_none());
    let and = AndEngine::builder().engines(vec![exact("alpha", false), exact("beta", false)]).build();
    assert!(and.match_item(&item).is_some());
    let and = AndEngine::builder().engines(vec![exact("alpha", false), exact("zeta", false)]).build();
    assert!(and.match_item(&item).is_none());
}

#[test]
fn law_strip_ansi_keeps_positions_in_order() {
    let (text, mapping) = strip_ansi("\x1b[31mab\x1b[0mc");
    assert_eq!(text, "abc");
    assert_eq!(mapping, vec![(5, 5), (6, 6), (11, 11)]);
    assert!(mapping.windows(2).all(|w| w[0].1 < w[1].1));
}
