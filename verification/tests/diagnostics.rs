use tokenpipe::diag::format_diagnostic;
use tokenpipe::tok::Span;

fn bytes(s: &str) -> Vec<u8> {
    s.as_bytes().to_vec()
}

fn text(v: &[u8]) -> String {
    String::from_utf8(v.to_vec()).unwrap()
}

#[test]
fn underlines_the_spanned_columns() {
    let source = bytes("fn f() {\n  bad\n}");
    let msg = format_diagnostic(
        &bytes("demo.tu"),
        &source,
        &bytes("unknown word"),
        Span { line: 2, col_start: 3, col_end: 6 },
    );
    assert_eq!(
        text(&msg),
        "unknown word\n --> demo.tu:2:3\n  bad\n  ^^^^\n"
    );
    assert!(text(&msg).contains("\n  bad\n"));
}

#[test]
fn caret_width_is_at_least_one() {
    let source = bytes("x");
    let msg = format_diagnostic(
        &bytes("a.tu"),
        &source,
        &bytes("boom"),
        Span { line: 1, col_start: 1, col_end: 0 },
    );
    assert_eq!(text(&msg), "boom\n --> a.tu:1:1\nx\n^\n");
}

#[test]
fn out_of_range_lines_show_an_empty_line() {
    let source = bytes("only one line");
    let msg = format_diagnostic(
        &bytes("a.tu"),
        &source,
        &bytes("late"),
        Span { line: 9, col_start: 1, col_end: 1 },
    );
    assert_eq!(text(&msg), "late\n --> a.tu:9:1\n\n^\n");
}

#[test]
fn first_line_of_first_column() {
    let source = bytes("bad start\nrest");
    let msg = format_diagnostic(
        &bytes("m.tu"),
        &source,
        &bytes("e"),
        Span { line: 1, col_start: 1, col_end: 3 },
    );
    assert_eq!(text(&msg), "e\n --> m.tu:1:1\nbad start\n^^^\n");
}
