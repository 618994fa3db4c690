use skim::binds::{action_chain_parts, parse_key, split_top_level, KeyCode, KeyEvent, KeyModifiers, KeyParseError, SkimEvent};

/// Modifiers: shift, control, alt.
fn mods(shift: bool, control: bool, alt: bool) -> KeyModifiers {
    KeyModifiers { shift, control, alt }
}

#[test]
fn test_parse_key() {
    assert_eq!(
        parse_key("a").unwrap(),
        KeyEvent::new(KeyCode::Char('a'), mods(false, false, false))
    );

    assert_eq!(
        parse_key("A").unwrap(),
        KeyEvent::new(KeyCode::Char('a'), mods(true, false, false))
    );

    assert_eq!(
        parse_key("alt-a").unwrap(),
        KeyEvent::new(KeyCode::Char('a'), mods(false, false, true))
    );

    assert_eq!(
        parse_key("alt-A").unwrap(),
        KeyEvent::new(KeyCode::Char('a'), mods(true, false, true))
    );
    assert_eq!(
        parse_key("alt-shift-a").unwrap(),
        KeyEvent::new(KeyCode::Char('a'), mods(true, false, true))
    );

    assert_eq!(
        parse_key("ctrl-a").unwrap(),
        KeyEvent::new(KeyCode::Char('a'), mods(false, true, false))
    );

    assert_eq!(
        parse_key("ctrl-A").unwrap(),
        KeyEvent::new(KeyCode::Char('a'), mods(true, true, false))
    );
    assert_eq!(
        parse_key("ctrl-shift-a").unwrap(),
        KeyEvent::new(KeyCode::Char('a'), mods(true, true, false))
    );

    assert_eq!(
        parse_key("f10").unwrap(),
        KeyEvent::new(KeyCode::F(10), mods(false, false, false))
    );

    assert_eq!(
        parse_key("space").unwrap(),
        KeyEvent::new(KeyCode::Char(' '), mods(false, false, false))
    );
    assert_eq!(
        parse_key("enter").unwrap(),
        KeyEvent::new(KeyCode::Enter, mods(false, false, false))
    );
    assert_eq!(
        parse_key("bspace").unwrap(),
        KeyEvent::new(KeyCode::Backspace, mods(false, false, false))
    );
    assert_eq!(
        parse_key("bs").unwrap(),
        KeyEvent::new(KeyCode::Backspace, mods(false, false, false))
    );
    assert_eq!(
        parse_key("up").unwrap(),
        KeyEvent::new(KeyCode::Up, mods(false, false, false))
    );
    assert_eq!(
        parse_key("down").unwrap(),
        KeyEvent::new(KeyCode::Down, mods(false, false, false))
    );
    assert_eq!(
        parse_key("left").unwrap(),
        KeyEvent::new(KeyCode::Left, mods(false, false, false))
    );
    assert_eq!(
        parse_key("right").unwrap(),
        KeyEvent::new(KeyCode::Right, mods(false, false, false))
    );
    assert_eq!(
        parse_key("tab").unwrap(),
        KeyEvent::new(KeyCode::Tab, mods(false, false, false))
    );
    assert_eq!(
        parse_key("btab").unwrap(),
        KeyEvent::new(KeyCode::BackTab, mods(false, false, false))
    );
    assert_eq!(
        parse_key("esc").unwrap(),
        KeyEvent::new(KeyCode::Esc, mods(false, false, false))
    );
    assert_eq!(
        parse_key("home").unwrap(),
        KeyEvent::new(KeyCode::Home, mods(false, false, false))
    );
    assert_eq!(
        parse_key("end").unwrap(),
        KeyEvent::new(KeyCode::End, mods(false, false, false))
    );
    assert_eq!(
        parse_key("pgup").unwrap(),
        KeyEvent::new(KeyCode::PageUp, mods(false, false, false))
    );
    assert_eq!(
        parse_key("pgdown").unwrap(),
        KeyEvent::new(KeyCode::PageDown, mods(false, false, false))
    );
    assert_eq!(
        parse_key("change").unwrap(),
        KeyEvent::new(KeyCode::F(255), mods(false, false, false))
    );
}

#[test]
fn parse_key_error_cases() {
    // Empty input.
    assert!(parse_key("").is_err());
    // Unknown modifier.
    assert!(parse_key("hyper-a").is_err());
    // Unknown key name.
    assert!(parse_key("notakey").is_err());
    // Invalid function-key index.
    assert!(parse_key("fXY").is_err());
}

#[test]
fn parse_key_reports_which_part_failed() {
    assert_eq!(parse_key(""), Err(KeyParseError::Empty));
    assert_eq!(parse_key("hyper-a"), Err(KeyParseError::UnknownModifier("hyper".to_string())));
    assert_eq!(parse_key("ctrl-notakey"), Err(KeyParseError::UnknownKey("notakey".to_string())));
    // The first unknown modifier is reported.
    assert_eq!(parse_key("ctrl-x-y-a"), Err(KeyParseError::UnknownModifier("x".to_string())));
    // A trailing '-' leaves an empty key name.
    assert_eq!(parse_key("ctrl-"), Err(KeyParseError::UnknownKey(String::new())));
}

#[test]
fn parse_key_function_keys_follow_u8_parsing() {
    assert_eq!(parse_key("f255").unwrap(), KeyEvent::new(KeyCode::F(255), mods(false, false, false)));
    assert!(parse_key("f256").is_err());
    assert_eq!(parse_key("f+7").unwrap(), KeyEvent::new(KeyCode::F(7), mods(false, false, false)));
    // "focus" is not a number after 'f': it is the event name.
    assert_eq!(parse_key("focus").unwrap(), KeyEvent::new(KeyCode::F(251), mods(false, false, false)));
    assert_eq!(parse_key("f").unwrap(), KeyEvent::new(KeyCode::Char('f'), mods(false, false, false)));
}

#[test]
fn parse_key_non_ascii_single_char_is_unknown() {
    assert_eq!(parse_key("é"), Err(KeyParseError::UnknownKey("é".to_string())));
}

#[test]
fn skim_event_names_and_codes() {
    let all = [
        ("start", SkimEvent::Start, 254),
        ("load", SkimEvent::Load, 253),
        ("change", SkimEvent::Change, 255),
        ("result", SkimEvent::Result, 252),
        ("focus", SkimEvent::Focus, 251),
        ("zero", SkimEvent::Zero, 250),
        ("one", SkimEvent::One, 249),
    ];
    for (name, event, code) in all {
        assert_eq!(SkimEvent::from_name(name), Some(event));
        assert_eq!(event.key_code(), KeyCode::F(code));
        assert_eq!(event.key_event(), KeyEvent::new(KeyCode::F(code), mods(false, false, false)));
        assert_eq!(parse_key(name).unwrap(), event.key_event());
    }
    assert_eq!(SkimEvent::from_name("Start"), None);
}

#[test]
fn action_chain_parts_join_blocks_and_conditions() {
    let parts = action_chain_parts(
        "execute-silent:1 {}+execute-silent:2 {+}+execute-silent:3 {+n}+reload+if-query-empty:reload+up",
    );
    assert_eq!(
        parts,
        vec![
            "execute-silent:1 {}",
            "execute-silent:2 {+}",
            "execute-silent:3 {+n}",
            "reload",
            "if-query-empty:reload+up",
        ]
    );
}

#[test]
fn action_chain_parts_keep_nested_bind_chain() {
    assert_eq!(action_chain_parts("bind(ctrl-x:abort+up)"), vec!["bind(ctrl-x:abort+up)"]);
    // A condition at the end has nothing to take with it.
    assert_eq!(action_chain_parts("up+if-query-empty:abort"), vec!["up", "if-query-empty:abort"]);
}

#[test]
fn split_top_level_ignores_separators_in_parentheses() {
    assert_eq!(
        split_top_level("ctrl-z:bind(ctrl-x:abort+up),ctrl-w:unbind(ctrl-x,ctrl-y)", ','),
        vec!["ctrl-z:bind(ctrl-x:abort+up)", "ctrl-w:unbind(ctrl-x,ctrl-y)"]
    );
    // A stray closing parenthesis does not take the depth below zero.
    assert_eq!(split_top_level("a),b", ','), vec!["a)", "b"]);
    assert_eq!(split_top_level("", ','), vec![""]);
    assert_eq!(split_top_level("a,,b", ','), vec!["a", "", "b"]);
}
