use skim::output::{BinOptions, OutputItem, OutputOptions, SkimOutput};

fn matched(text: &str, score: i32) -> OutputItem {
    OutputItem {
        output: text.to_string(),
        score,
    }
}

/// An accepted run; `accept_key` is the key the accept action named, if any.
fn output_with(items: Vec<OutputItem>, accept_key: Option<String>) -> SkimOutput {
    SkimOutput {
        accept_key,
        is_abort: false,
        query: "qry".to_string(),
        cmd: "cmd".to_string(),
        selected_items: items,
        current: None,
        header: "hdr".to_string(),
    }
}

fn opts() -> BinOptions {
    BinOptions::from_opts(&OutputOptions::default())
}

fn render(out: &SkimOutput, opts: &BinOptions) -> String {
    let mut buf = String::new();
    out.write_output(&mut buf, opts);
    buf
}

#[test]
fn writes_selected_items_newline_separated() {
    let out = output_with(vec![matched("a", 0), matched("b", 0)], None);
    assert_eq!(render(&out, &opts()), "a\nb\n");
}

#[test]
fn print0_uses_nul_ending() {
    let mut o = opts();
    o.output_ending = "\0".to_string();
    let out = output_with(vec![matched("a", 0), matched("b", 0)], None);
    assert_eq!(render(&out, &o), "a\0b\0");
}

#[test]
fn print_query_cmd_header_precede_items_in_order() {
    let mut o = opts();
    o.print_query = true;
    o.print_cmd = true;
    o.print_header = true;
    let out = output_with(vec![matched("a", 0)], None);
    assert_eq!(render(&out, &o), "qry\ncmd\nhdr\na\n");
}

#[test]
fn print_current_writes_blank_line_when_no_current() {
    let mut o = opts();
    o.print_current = true;
    let out = output_with(vec![matched("a", 0)], None);
    // No current item → a bare ending, then the selected item.
    assert_eq!(render(&out, &o), "\na\n");
}

#[test]
fn print_current_writes_current_item() {
    let mut o = opts();
    o.print_current = true;
    let mut out = output_with(vec![matched("a", 0)], None);
    out.current = Some("cur".to_string());
    assert_eq!(render(&out, &o), "cur\na\n");
}

#[test]
fn accept_key_is_written_before_items() {
    let out = output_with(vec![matched("a", 0)], Some("ctrl-x".to_string()));
    assert_eq!(render(&out, &opts()), "ctrl-x\na\n");
}

#[test]
fn print_score_follows_each_item() {
    let mut o = opts();
    o.print_score = true;
    let out = output_with(vec![matched("a", 50), matched("b", 18)], None);
    assert_eq!(render(&out, &o), "a\n50\nb\n18\n");
}

#[test]
fn strip_ansi_removes_escape_sequences_from_items() {
    let mut o = opts();
    o.strip_ansi = true;
    let out = output_with(vec![matched("\x1b[31mred\x1b[0m", 0)], None);
    assert_eq!(render(&out, &o), "red\n");
}

#[test]
fn strip_ansi_keeps_nul_bytes_in_item_output() {
    // NUL is not an ANSI escape, so it survives ANSI stripping (matches the
    // `--ansi` "a\0b" passthrough behavior).
    let mut o = opts();
    o.strip_ansi = true;
    let out = output_with(vec![matched("a\0b", 0)], None);
    assert_eq!(render(&out, &o), "a\0b\n");
}

#[test]
fn no_strip_ansi_keeps_escape_sequences_in_output() {
    let o = opts(); // strip_ansi defaults to false
    assert!(!o.strip_ansi);
    let out = output_with(vec![matched("\x1b[31mred\x1b[0m", 0)], None);
    assert_eq!(render(&out, &o), "\x1b[31mred\x1b[0m\n");
}

#[test]
fn bin_options_reflect_flags() {
    let mut opts = OutputOptions::default();
    opts.print_query = true;
    opts.print0 = true;
    opts.ansi = true;
    opts.no_strip_ansi = false;
    let bin = BinOptions::from_opts(&opts);
    assert!(bin.print_query);
    assert_eq!(bin.output_ending, "\0");
    assert!(bin.strip_ansi);
}

#[test]
fn bin_options_strip_ansi_requires_ansi_and_not_no_strip() {
    let mut opts = OutputOptions::default();
    opts.ansi = true;
    opts.no_strip_ansi = true;
    assert!(!BinOptions::from_opts(&opts).strip_ansi);

    opts.no_strip_ansi = false;
    assert!(BinOptions::from_opts(&opts).strip_ansi);

    opts.ansi = false;
    assert!(!BinOptions::from_opts(&opts).strip_ansi);
}

#[test]
fn negative_and_extreme_scores_print_in_decimal() {
    let mut o = opts();
    o.print_score = true;
    let out = output_with(vec![matched("a", -7), matched("b", i32::MIN), matched("c", i32::MAX), matched("d", 0)], None);
    assert_eq!(render(&out, &o), "a\n-7\nb\n-2147483648\nc\n2147483647\nd\n0\n");
}

#[test]
fn write_output_appends_to_what_is_there() {
    let out = output_with(vec![matched("x", 1)], None);
    let mut buf = String::from("before|");
    out.write_output(&mut buf, &opts());
    assert_eq!(buf, "before|x\n");
}

#[test]
fn everything_at_once_in_order() {
    let mut o = opts();
    o.print_query = true;
    o.print_cmd = true;
    o.print_header = true;
    o.print_current = true;
    o.print_score = true;
    o.output_ending = "\0".to_string();
    let mut out = output_with(vec![matched("a", 3)], Some("enter".to_string()));
    out.current = Some("cur".to_string());
    assert_eq!(render(&out, &o), "qry\0cmd\0hdr\0cur\0enter\0a\03\0");
}
