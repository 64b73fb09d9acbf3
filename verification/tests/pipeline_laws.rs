use tokenpipe::already_up_to_date;
use tokenpipe::pipeline::{plan_build, Plan};
use tokenpipe::stub::{stub_defs, ArtifactRef};
use tokenpipe::extract::ValErrKind;

fn bytes(s: &str) -> Vec<u8> {
    s.as_bytes().to_vec()
}

fn text(v: &[u8]) -> String {
    String::from_utf8(v.to_vec()).unwrap()
}

#[test]
fn freshness_requires_both_files_and_a_newer_output() {
    assert!(already_up_to_date(Some(5), Some(9)));
    assert!(!already_up_to_date(Some(9), Some(9)));
    assert!(!already_up_to_date(Some(10), Some(9)));
    assert!(!already_up_to_date(None, Some(9)));
    assert!(!already_up_to_date(Some(5), None));
    assert!(!already_up_to_date(None, None));
}

#[test]
fn touching_the_input_forces_recompilation() {
    // Populated cache: output written at 9, input at 5.
    assert!(already_up_to_date(Some(5), Some(9)));
    // The input is touched past the output: stale, so the unit recompiles.
    assert!(!already_up_to_date(Some(12), Some(9)));
    // Touching only the output never triggers a spurious recompile.
    assert!(already_up_to_date(Some(5), Some(14)));
}

#[test]
fn identical_content_yields_byte_identical_stubs_and_a_cache_skip() {
    let src = bytes("#[transform] pub fn f ( ts ) { ts }");
    // First run: empty cache, so not fresh; the unit is compiled.
    let first = match plan_build(&src, already_up_to_date(Some(5), None)) {
        Plan::Compile(p) => p,
        _ => panic!("expected a compilation"),
    };
    let addr = ArtifactRef::PathRef(bytes("/scratch/unit_0.bc"));
    let stub1 = stub_defs(&first.exports, &addr);
    // A second run over the same content prepares byte-identical output.
    let second = match plan_build(&src, false) {
        Plan::Compile(p) => p,
        _ => panic!("expected a compilation"),
    };
    assert_eq!(first.source, second.source);
    assert_eq!(first.hash, second.hash);
    assert_eq!(stub1, stub_defs(&second.exports, &addr));
    // With the populated, fresh cache the toolchain invoker is skipped.
    match plan_build(&src, already_up_to_date(Some(5), Some(9))) {
        Plan::UseCache => {}
        _ => panic!("expected the cache to be used"),
    }
}

#[test]
fn compilation_source_carries_the_epilogue() {
    let src = bytes("#[transform] pub fn f ( ts ) { ts }");
    let p = match plan_build(&src, false) {
        Plan::Compile(p) => p,
        _ => panic!("expected a compilation"),
    };
    let s = text(&p.source);
    assert!(s.starts_with("# [ no_mangle ] pub foreign \"C\" fn f ( ts )"));
    assert!(s.ends_with(
        "\nuse sandbox_tokens as TokenSeq ;\nuse sandbox_parse_or_bail as parse_input ;\n"
    ));
}

#[test]
fn validation_failures_reject_without_compiling() {
    for (src, kind) in [
        ("#[transform] use helpers ;", ValErrKind::ShapeError),
        ("#[transform] fn f ( t ) { t }", ValErrKind::VisibilityError),
        (
            "#[transform] pub foreign \"D\" fn f ( t ) { t }",
            ValErrKind::ConflictingAbiError,
        ),
    ] {
        match plan_build(&bytes(src), false) {
            Plan::Reject(e) => assert_eq!(e.kind, kind),
            _ => panic!("expected the unit to be rejected"),
        }
    }
}

#[test]
fn unparsable_text_becomes_an_inert_passthrough() {
    // An unterminated block: the parser cannot finish the unit.
    let src = bytes("fn f ( ) {\n  bad");
    match plan_build(&src, false) {
        Plan::Passthrough(t) => {
            assert_eq!(text(&t), "inert {\nfn f ( ) {\n  bad\n}\n");
        }
        _ => panic!("expected a passthrough"),
    }
    // An unterminated string literal: the lexer already fails.
    match plan_build(&bytes("\"never closed"), false) {
        Plan::Passthrough(t) => {
            assert!(text(&t).contains("\"never closed"));
        }
        _ => panic!("expected a passthrough"),
    }
}

#[test]
fn empty_unit_compiles_to_the_epilogue_alone() {
    match plan_build(&Vec::new(), false) {
        Plan::Compile(p) => {
            assert!(p.exports.is_empty());
            assert_eq!(
                text(&p.source),
                "\nuse sandbox_tokens as TokenSeq ;\nuse sandbox_parse_or_bail as parse_input ;\n"
            );
        }
        _ => panic!("expected a compilation"),
    }
}

#[test]
fn dangling_tag_is_a_shape_error() {
    match plan_build(&bytes("#[transform]"), false) {
        Plan::Reject(e) => assert_eq!(e.kind, ValErrKind::ShapeError),
        _ => panic!("expected the unit to be rejected"),
    }
}
