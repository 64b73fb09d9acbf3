use tokenpipe::lex::{lex, LexErrKind};
use tokenpipe::tok::{render, Tok};

fn bytes(s: &str) -> Vec<u8> {
    s.as_bytes().to_vec()
}

fn text(v: &[u8]) -> String {
    String::from_utf8(v.to_vec()).unwrap()
}

#[test]
fn lexes_words_puncts_and_groups() {
    let toks = lex(&bytes("fn f ( ts ) { ts }")).unwrap();
    assert_eq!(toks.len(), 8);
    match &toks[0].tok {
        Tok::Word(w) => assert_eq!(w, &bytes("fn")),
        _ => panic!("expected a word"),
    }
    match &toks[2].tok {
        Tok::Open(_) => {}
        _ => panic!("expected an open delimiter"),
    }
}

#[test]
fn lexes_string_literals_and_spans() {
    let toks = lex(&bytes("ab \"cd\"")).unwrap();
    assert_eq!(toks.len(), 2);
    match &toks[0].tok {
        Tok::Word(w) => assert_eq!(w, &bytes("ab")),
        _ => panic!("expected a word"),
    }
    assert_eq!(toks[0].span.line, 1);
    assert_eq!(toks[0].span.col_start, 1);
    assert_eq!(toks[0].span.col_end, 2);
    match &toks[1].tok {
        Tok::Str(c) => assert_eq!(c, &bytes("cd")),
        _ => panic!("expected a string"),
    }
    assert_eq!(toks[1].span.col_start, 4);
    assert_eq!(toks[1].span.col_end, 7);
}

#[test]
fn tracks_line_numbers() {
    let toks = lex(&bytes("a\n  b")).unwrap();
    assert_eq!(toks[1].span.line, 2);
    assert_eq!(toks[1].span.col_start, 3);
}

#[test]
fn unterminated_string_is_an_error() {
    let err = lex(&bytes("x \"abc")).unwrap_err();
    assert_eq!(err.kind, LexErrKind::UnterminatedStr);
    assert_eq!(err.line, 1);
    assert_eq!(err.col, 3);
}

#[test]
fn string_broken_by_line_end_is_an_error() {
    let err = lex(&bytes("\"ab\ncd\"")).unwrap_err();
    assert_eq!(err.kind, LexErrKind::UnterminatedStr);
}

#[test]
fn non_printable_byte_is_an_error() {
    let err = lex(&vec![97u8, 32, 7]).unwrap_err();
    assert_eq!(err.kind, LexErrKind::BadByte);
    assert_eq!(err.col, 3);
}

#[test]
fn render_then_lex_round_trips() {
    let toks = lex(&bytes("# [ transform ]  pub fn  f ( \"x\" ) { 1 + 1 ; }")).unwrap();
    let canonical = render(&toks);
    assert_eq!(
        text(&canonical),
        "# [ transform ] pub fn f ( \"x\" ) { 1 + 1 ; }"
    );
    let again = lex(&canonical).unwrap();
    assert_eq!(render(&again), canonical);
}
