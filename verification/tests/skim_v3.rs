use skim::fuzzy_matcher::skim_v3::SkimV3Matcher;
use skim::fuzzy_matcher::{FuzzyMatcher, MatchIndices};
use skim::CaseMatching;

fn assert_order(matcher: &dyn FuzzyMatcher, pattern: &str, choices: &[&'static str]) {
    let mut scored: Vec<(i64, &'static str)> = choices
        .iter()
        .filter_map(|&s| matcher.fuzzy_match(s, pattern).map(|score| (score, s)))
        .collect();
    scored.sort_by_key(|(score, _)| -score);
    let result: Vec<&'static str> = scored.into_iter().map(|(_, s)| s).collect();
    assert_eq!(result, choices);
}


fn matcher() -> SkimV3Matcher {
    SkimV3Matcher::default()
}

fn matcher_typos() -> SkimV3Matcher {
    SkimV3Matcher::new(CaseMatching::Smart, true)
}

fn score(choice: &str, pattern: &str) -> Option<i64> {
    matcher().fuzzy_match(choice, pattern)
}

fn score_typos(choice: &str, pattern: &str) -> Option<i64> {
    matcher_typos().fuzzy_match(choice, pattern)
}

fn indices(choice: &str, pattern: &str) -> Option<MatchIndices> {
    matcher().fuzzy_indices(choice, pattern).map(|(_, v)| v)
}

// ----- Basic matching -----

#[test]
fn skim_v3_empty_pattern_always_matches() {
    assert_eq!(score("anything", ""), Some(0));
    assert_eq!(score("", ""), Some(0));
}

#[test]
fn skim_v3_empty_choice_never_matches() {
    assert!(score("", "a").is_none());
}

#[test]
fn skim_v3_exact_match_scores_positive() {
    assert!(score("hello", "hello").unwrap() > 0);
}

#[test]
fn skim_v3_no_match_returns_none() {
    assert!(score("abc", "xyz").is_none());
}

#[test]
fn skim_v3_subsequence_match() {
    assert!(score("axbycz", "abc").is_some());
    let idx = indices("axbycz", "abc").unwrap();
    assert_eq!(idx.as_slice(), &[0, 2, 4]);
}

// ----- Scoring quality -----

#[test]
fn skim_v3_contiguous_beats_scattered() {
    let contiguous = score("ab", "ab").unwrap();
    let scattered = score("axb", "ab").unwrap();
    assert!(
        contiguous > scattered,
        "contiguous={contiguous} should beat scattered={scattered}"
    );
}

#[test]
fn skim_v3_fewer_gaps_beats_more_gaps() {
    let one_gap = score("abxc", "abc").unwrap();
    let two_gaps = score("axbxc", "abc").unwrap();
    assert!(one_gap > two_gaps, "one_gap={one_gap} should beat two_gaps={two_gaps}");
}

#[test]
fn skim_v3_word_start_bonus() {
    let boundary = score("src/reader.rs", "reader").unwrap();
    let stitched = score("src/tui/header.rs", "reader").unwrap();
    assert!(
        boundary > stitched,
        "word-boundary={boundary} should beat stitched={stitched}"
    );
}

#[test]
fn skim_v3_start_of_string_bonus() {
    let at_start = score("abc", "a").unwrap();
    let at_mid = score("xabc", "a").unwrap();
    assert!(at_start > at_mid, "start={at_start} should beat mid={at_mid}");
}

#[test]
fn skim_v3_consecutive_match_preferred() {
    let consecutive = score("foobar", "oob").unwrap();
    let spread = score("oxoxb", "oob").unwrap();
    assert!(
        consecutive > spread,
        "consecutive={consecutive} should beat spread={spread}"
    );
}

#[test]
fn skim_v3_camel_case_bonus() {
    let camel = score("FooBar", "fb").unwrap();
    let flat = score("foobar", "fb").unwrap();
    assert!(camel > flat, "camel={camel} should beat flat={flat}");
}

// ----- Case sensitivity -----

#[test]
fn skim_v3_smart_case_insensitive_lowercase_pattern() {
    let m = SkimV3Matcher::new(CaseMatching::Smart, false);
    assert!(m.fuzzy_match("FooBar", "foobar").is_some());
}

#[test]
fn skim_v3_smart_case_sensitive_uppercase_pattern() {
    let m = SkimV3Matcher::new(CaseMatching::Smart, false);
    assert!(m.fuzzy_match("foobar", "FooBar").is_none());
    assert!(m.fuzzy_match("FooBar", "FooBar").is_some());
}

#[test]
fn skim_v3_respect_case() {
    let m = SkimV3Matcher::new(CaseMatching::Respect, false);
    assert!(m.fuzzy_match("abc", "ABC").is_none());
    assert!(m.fuzzy_match("ABC", "ABC").is_some());
}

#[test]
fn skim_v3_ignore_case() {
    let m = SkimV3Matcher::new(CaseMatching::Ignore, false);
    assert!(m.fuzzy_match("abc", "ABC").is_some());
}

// ----- Typo tolerance -----

#[test]
fn skim_v3_no_typos_rejects_mismatch() {
    assert!(score("hxllo", "hello").is_none());
}

#[test]
fn skim_v3_typos_accepts_mismatch() {
    assert!(score_typos("hxllo", "hello").is_some());
}

#[test]
fn skim_v3_no_typos_rejects_transposition() {
    assert!(score("hlelo", "hello").is_none());
}

#[test]
fn skim_v3_typos_accepts_transposition() {
    assert!(score_typos("hlelo", "hello").is_some());
}

#[test]
fn skim_v3_exact_match_same_with_and_without_typos() {
    let with = score_typos("hello", "hello").unwrap();
    let without = score("hello", "hello").unwrap();
    assert_eq!(
        with, without,
        "exact match score should be identical regardless of typo flag"
    );
}

#[test]
fn skim_v3_typo_match_scores_less_than_exact() {
    let exact = score_typos("hello", "hello").unwrap();
    let typo = score_typos("hxllo", "hello").unwrap();
    assert!(exact > typo, "exact={exact} should beat typo={typo}");
}

// ----- Traceback correctness -----

#[test]
fn skim_v3_indices_exact_match() {
    let idx = indices("hello", "hello").unwrap();
    assert_eq!(idx.as_slice(), &[0, 1, 2, 3, 4]);
}

#[test]
fn skim_v3_transposition_matches() {
    let result = matcher_typos().fuzzy_indices("abdc", "abcd");
    assert!(result.is_some(), "transposed input should match with typos");
    let (score_trans, _) = result.unwrap();

    let (score_exact, _) = matcher_typos().fuzzy_indices("abcd", "abcd").unwrap();
    assert!(
        score_exact > score_trans,
        "exact={score_exact} should beat transposed={score_trans}"
    );
}

// ----- Reader ranking regression -----

#[test]
fn skim_v3_reader_ranking() {
    let pattern = "reader";
    let dense = score("src/reader.rs", pattern).unwrap();
    let sparse = score(
        "tests/snapshots/normalize__insta_normalize_accented_item_unaccented_query.snap",
        pattern,
    )
    .unwrap_or(0);
    assert!(dense > sparse, "dense={dense} should beat sparse={sparse}");
}

// ----- Ordering sanity -----

#[test]
fn skim_v3_ordering_ab() {
        let m = SkimV3Matcher::new(CaseMatching::Ignore, false);
    assert_order(&m, "ab", &["ab", "aoo_boo", "acb"]);
}

#[test]
fn skim_v3_ordering_print() {
        let m = SkimV3Matcher::new(CaseMatching::Ignore, false);
    assert_order(&m, "print", &["printf", "sprintf"]);
}

// ----- Score-only vs full DP consistency -----

#[test]
fn skim_v3_score_only_matches_full_dp() {
    let m = SkimV3Matcher::new(CaseMatching::Ignore, true);
    let cases = [
        ("hello world", "hlo"),
        ("src/reader.rs", "reader"),
        ("FooBar", "fb"),
        ("axbycz", "abc"),
        ("hxllo", "hello"),
    ];
    for (choice, pattern) in &cases {
        let score_only = m.fuzzy_match(choice, pattern);
        let full = m.fuzzy_indices(choice, pattern).map(|(s, _)| s);
        assert_eq!(
            score_only, full,
            "score mismatch for ({choice}, {pattern}): score_only={score_only:?} full={full:?}"
        );
    }
}

// ----- Non-ASCII fallback -----

#[test]
fn skim_v3_non_ascii_matching() {
    let m = matcher();
    assert!(m.fuzzy_match("café", "café").is_some());
    assert!(m.fuzzy_match("naïve", "naive").is_none());
}

// Regression test: all valid subsequences must be returned in --no-typos mode.
// grep '.*t.*e.*s.*t' should give the same results as skim_v3 with pattern 'test'.
#[test]
fn skim_v3_all_subsequences_must_match() {
    let m = matcher();
    let cases = [
        // Bug 1: full_dp tracked best_j across all rows instead of only the
        // last row, so traceback started at the wrong cell.
        "audio/audio/bin/temp/usr/uploads/mnt/cache/media_3445258",
        "audio/audio/audio/docs/cache/temp/downloads/backup/shared/data_9591740",
        // Bug 2: min_true_matches was enforced in exact mode, but the true-count
        // bookkeeping is corrupted by tiebreaking when a character coincidentally
        // matches at a column where diag_score=0 (fresh local alignment start).
        // In exact mode every row increment requires a true match, so score > 0
        // at row n already guarantees n true matches; the threshold is not needed.
        "audio/audio/audio/opt/media/sys/sys/backup/etc_744357",
        "audio/audio/audio/temp/shared/uploads/downloads/config/home/mnt_9037278",
        "audio/audio/opt/cache/usr/usr/var/temp_1579492",
    ];
    for choice in &cases {
        assert!(
            m.fuzzy_match(choice, "test").is_some(),
            "fuzzy_match should match subsequence 'test' in {:?}",
            choice
        );
        assert!(
            m.fuzzy_indices(choice, "test").is_some(),
            "fuzzy_indices should match subsequence 'test' in {:?}",
            choice
        );
    }
}
#[test]
fn skim_v3_score_and_full_dp_same() {
    let cases = [("dist-workspace.toml", "tst")];
    let m = matcher_typos();
    for (choice, pat) in cases {
        assert_eq!(
            m.fuzzy_indices(choice, pat).map(|(s, _)| s),
            m.fuzzy_match_range(choice, pat).map(|(s, _, _)| s)
        )
    }
}

// Verify that fuzzy_match_range returns scores consistent with fuzzy_indices
// and that begin/end are within the span of the full index list.
#[test]
fn skim_v3_range_consistent_with_indices() {
    let cases = [
        ("hello", "hello"),
        ("axbycz", "abc"),
        ("src/reader.rs", "reader"),
        ("FooBar", "fb"),
        ("dist-workspace.toml", "tst"),
    ];
    let matchers = [matcher(), matcher_typos()];
    for m in &matchers {
        for &(choice, pattern) in &cases {
            let range = m.fuzzy_match_range(choice, pattern);
            let full = m.fuzzy_indices(choice, pattern);
            match (range, full) {
                (None, None) => {}
                (Some((rs, rb, re)), Some((fs, fidx))) => {
                    assert_eq!(rs, fs, "score mismatch for ({choice}, {pattern})");
                    let fbegin = fidx.first().copied().unwrap_or_default();
                    let fend = fidx.last().copied().unwrap_or_default();
                    assert_eq!(
                        rb, fbegin,
                        "begin mismatch for ({choice}, {pattern}): range={rb} indices={fbegin}"
                    );
                    assert_eq!(
                        re, fend,
                        "end mismatch for ({choice}, {pattern}): range={re} indices={fend}"
                    );
                }
                _ => panic!("range/indices disagreement for ({choice}, {pattern})"),
            }
        }
    }
}

// Temporary debug test to reproduce the mismatch between full_dp and
// score-only on the failing case. Prints the two scores so we can inspect
// differences while iterating. Remove or disable once the root cause is
// fixed.
#[test]
fn debug_score_vs_full() {
    let choice = "dist-workspace.toml";
    let pat = "tst";
    let m = matcher_typos();
    let full_idx = m.fuzzy_indices(choice, pat);
    let full_score = full_idx.as_ref().map(|(s, _)| *s);
    let score_range = m.fuzzy_match_range(choice, pat);
    let score_only_score = score_range.map(|(s, _, _)| s);
    println!("full_idx: {:?}, score_range: {:?}", full_idx, score_range);
    if let Some((_, idx)) = full_idx.as_ref() {
        println!("full indices: {:?}", idx);
    }
    if let Some((s, b, e)) = score_range {
        println!("score_only range: score={}, begin={}, end={}", s, b, e);
    }
    // keep the assertion to reflect intended equality of scores
    assert_eq!(full_score, score_only_score);
}

#[test]
fn skim_v3_long_gap_still_reports_every_pattern_char() {
    let choice = format!("a{}b", "x".repeat(30));
    let (s, idx) = matcher().fuzzy_indices(&choice, "ab").unwrap();
    assert!(s > 0);
    assert_eq!(idx.as_slice(), &[0, 31]);
    assert_eq!(score(&choice, "ab"), Some(s));
}

#[test]
fn skim_v3_exact_indices_cover_the_whole_pattern() {
    let cases = [
        ("audio/audio/bin/temp/usr/uploads/mnt/cache/media_3445258", "test"),
        ("a_b_c_d_e_f_g_h_i_j_k_l_m_n_o_p", "ap"),
        ("axxxxxxxxxxxxxxxxxxxxxxxxxxxxxxxxxxxxxxxxbxxxxxxxxxxxxxxxxxxxxxxxxxxxxxxxxxc", "abc"),
    ];
    for (choice, pattern) in cases {
        let (_, idx) = matcher().fuzzy_indices(choice, pattern).unwrap();
        assert_eq!(idx.len(), pattern.chars().count(), "{choice} / {pattern}");
        assert!(idx.windows(2).all(|w| w[0] < w[1]));
    }
}

#[test]
fn skim_v3_typo_range_begins_at_a_substituted_character() {
    let m = matcher_typos();
    let choice = format!("q{}bcd", "z".repeat(30));
    let (s, idx) = m.fuzzy_indices(&choice, "qbcd").unwrap();
    assert_eq!(idx.as_slice(), &[31, 32, 33]);
    assert_eq!(m.fuzzy_match_range(&choice, "qbcd"), Some((s, 30, 33)));
}
