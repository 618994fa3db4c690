use skim::fuzzy_matcher::util::{char_equal, char_role, char_type_of, cheap_matches, wrap_matches, CharRole, CharType};


#[test]
fn char_equal_case_sensitive() {
    assert!(char_equal('a', 'a', true));
    assert!(!char_equal('a', 'A', true));
}

#[test]
fn char_equal_case_insensitive() {
    assert!(char_equal('a', 'A', false));
    assert!(!char_equal('a', 'b', false));
}

#[test]
fn char_equal_folds_fullwidth_ascii() {
    assert!(char_equal('ａ', 'a', true));
    assert!(char_equal('Ａ', 'A', true));
    assert!(!char_equal('Ａ', 'a', true));
    assert!(char_equal('Ａ', 'a', false));
    assert!(char_equal('１', '1', true));
    assert!(char_equal('　', ' ', true));
}

#[test]
fn char_equal_multichar_lowercase_mismatch() {
    // 'İ' (U+0130) lowercases to two chars ("i" + combining dot), so it is
    // not equal to the single char 'i' — exercising the length-mismatch path.
    assert!(!char_equal('İ', 'i', false));
    // ...and the comparison must be symmetric. This direction used to
    // return `true` because the shorter sequence was exhausted first, which
    // made `cheap_matches` and `allow_match` disagree and drove the clangd
    // matcher's backtracking past the start of the DP matrix.
    assert!(!char_equal('i', 'İ', false));
    assert!(!char_equal('I', 'İ', false));
    assert!(!char_equal('İ', 'I', false));
}

#[test]
fn char_equal_is_symmetric() {
    // Exhaustively check symmetry against chars with multi-char or
    // otherwise unusual lowercase mappings.
    let probes = ['i', 'I', 'İ', 'ı', 'ß', 'ẞ', 'ﬄ', 'ς', 'Σ', 'K', 'İ', 'ǅ'];
    for u in 0..=0x2FFFu32 {
        let Some(ch) = char::from_u32(u) else { continue };
        for p in probes {
            for case_sensitive in [true, false] {
                assert_eq!(
                    char_equal(ch, p, case_sensitive),
                    char_equal(p, ch, case_sensitive),
                    "char_equal is asymmetric for ({ch:?}, {p:?}, {case_sensitive})"
                );
            }
        }
    }
}

#[test]
fn char_equal_reflexive() {
    for u in 0..=0x2FFFu32 {
        let Some(ch) = char::from_u32(u) else { continue };
        assert!(char_equal(ch, ch, true));
        assert!(char_equal(ch, ch, false));
    }
}

#[test]
fn cheap_matches_subsequence() {
    let choice: Vec<char> = "hello".chars().collect();
    let pattern: Vec<char> = "hlo".chars().collect();
    assert_eq!(cheap_matches(&choice, &pattern, true), Some(vec![0, 2, 4]));
}

#[test]
fn cheap_matches_no_match() {
    let choice: Vec<char> = "hello".chars().collect();
    let pattern: Vec<char> = "xyz".chars().collect();
    assert_eq!(cheap_matches(&choice, &pattern, true), None);
}

#[test]
fn char_type_and_role() {
    assert_eq!(char_type_of('a'), CharType::Lower);
    assert_eq!(char_type_of('A'), CharType::Upper);
    assert_eq!(char_type_of('1'), CharType::Number);
    assert_eq!(char_type_of('-'), CharType::NonWord);

    assert_eq!(char_role('o', 'B'), CharRole::Head);
    assert_eq!(char_role('-', 'f'), CharRole::Head);
    assert_eq!(char_role('F', 'o'), CharRole::Tail);
    assert_eq!(char_role('H', 'T'), CharRole::Tail);
}

#[test]
fn wrap_matches_brackets_indices() {
    assert_eq!(wrap_matches("hello", &[0, 4]), "[h]ell[o]");
    assert_eq!(wrap_matches("hi", &[]), "hi");
}

