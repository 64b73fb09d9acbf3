use tokenpipe::extract::{extract, ValErrKind};
use tokenpipe::lex::lex;
use tokenpipe::parse::parse_unit;
use tokenpipe::ast::{Decl, Unit};
use tokenpipe::emit::render_unit;

fn bytes(s: &str) -> Vec<u8> {
    s.as_bytes().to_vec()
}

fn text(v: &[u8]) -> String {
    String::from_utf8(v.to_vec()).unwrap()
}

fn unit_of(src: &str) -> Unit {
    let toks = lex(&bytes(src)).unwrap();
    parse_unit(&toks).unwrap()
}

#[test]
fn untagged_unit_passes_through_unchanged() {
    let u = unit_of("pub fn g ( t ) { t } use helpers ;");
    let (nu, exports) = extract(&u).unwrap();
    assert!(exports.is_empty());
    assert_eq!(
        text(&render_unit(&nu)),
        "pub fn g ( t ) { t } use helpers ;"
    );
}

#[test]
fn tagged_function_is_rewritten_into_exported_form() {
    let u = unit_of("#[transform] pub fn f ( ts ) { ts }");
    let (nu, exports) = extract(&u).unwrap();
    assert_eq!(exports.len(), 1);
    assert_eq!(exports[0].name, bytes("f"));
    assert!(exports[0].attrs.is_empty());
    assert_eq!(
        text(&render_unit(&nu)),
        "# [ no_mangle ] pub foreign \"C\" fn f ( ts ) { install_sandbox_trap ( ) ; ts }"
    );
}

#[test]
fn remaining_annotations_move_to_the_export() {
    let u = unit_of("#[keep] #[transform] pub fn f ( ts ) { ts }");
    let (nu, exports) = extract(&u).unwrap();
    assert_eq!(exports.len(), 1);
    assert_eq!(exports[0].attrs.len(), 1);
    assert_eq!(exports[0].attrs[0].name, bytes("keep"));
    // The rewritten function keeps only the synthesized linkage attribute.
    let rendered = text(&render_unit(&nu));
    assert!(rendered.starts_with("# [ no_mangle ]"));
    assert!(!rendered.contains("keep"));
}

#[test]
fn exports_come_in_declaration_order() {
    let u = unit_of(
        "#[transform] pub fn a ( t ) { t } fn mid ( ) { } #[transform] pub fn b ( t ) { t }",
    );
    let (_, exports) = extract(&u).unwrap();
    let names: Vec<Vec<u8>> = exports.iter().map(|e| e.name.clone()).collect();
    assert_eq!(names, vec![bytes("a"), bytes("b")]);
}

#[test]
fn tagged_non_function_is_a_shape_error() {
    let u = unit_of("#[transform] use helpers ;");
    let err = extract(&u).unwrap_err();
    assert_eq!(err.kind, ValErrKind::ShapeError);
    assert_eq!(err.span.line, 1);
}

#[test]
fn tagged_private_function_is_a_visibility_error() {
    let u = unit_of("#[transform] fn f ( ts ) { ts }");
    let err = extract(&u).unwrap_err();
    assert_eq!(err.kind, ValErrKind::VisibilityError);
}

#[test]
fn tagged_function_with_calling_convention_is_a_conflict() {
    let u = unit_of("#[transform] pub foreign \"D\" fn f ( ts ) { ts }");
    let err = extract(&u).unwrap_err();
    assert_eq!(err.kind, ValErrKind::ConflictingAbiError);
}

#[test]
fn first_validation_error_wins() {
    let u = unit_of("#[transform] fn early ( t ) { t } #[transform] use late ;");
    let err = extract(&u).unwrap_err();
    assert_eq!(err.kind, ValErrKind::VisibilityError);
}

#[test]
fn parser_classifies_declarations() {
    let u = unit_of("use x ; #[transform] pub fn f ( t ) { t } record R { a }");
    assert_eq!(u.decls.len(), 3);
    assert!(matches!(u.decls[0], Decl::Other(_)));
    assert!(matches!(u.decls[1], Decl::Func(_)));
    assert!(matches!(u.decls[2], Decl::Other(_)));
}
