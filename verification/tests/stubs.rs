use tokenpipe::extract::extract;
use tokenpipe::lex::lex;
use tokenpipe::parse::parse_unit;
use tokenpipe::stub::{stub_defs, ArtifactRef};

fn bytes(s: &str) -> Vec<u8> {
    s.as_bytes().to_vec()
}

fn text(v: &[u8]) -> String {
    String::from_utf8(v.to_vec()).unwrap()
}

fn exports_of(src: &str) -> Vec<tokenpipe::extract::Export> {
    let toks = lex(&bytes(src)).unwrap();
    let unit = parse_unit(&toks).unwrap();
    extract(&unit).unwrap().1
}

#[test]
fn one_binding_per_export_in_declaration_order() {
    let exports = exports_of(
        "#[transform] pub fn first ( t ) { t } #[transform] pub fn second ( t ) { t }",
    );
    let stub = text(&stub_defs(&exports, &ArtifactRef::PathRef(bytes("p.bc"))));
    assert_eq!(
        stub,
        "binding first { dispatch first \"p.bc\" }\nbinding second { dispatch second \"p.bc\" }\n"
    );
    let first_at = stub.find("binding first").unwrap();
    let second_at = stub.find("binding second").unwrap();
    assert!(first_at < second_at);
}

#[test]
fn annotations_are_re_emitted_on_the_binding() {
    let exports = exports_of("#[keep] #[transform] pub fn f ( t ) { t }");
    let stub = text(&stub_defs(&exports, &ArtifactRef::PathRef(bytes("p.bc"))));
    assert_eq!(stub, "# [ keep ]\nbinding f { dispatch f \"p.bc\" }\n");
}

#[test]
fn embedded_artifacts_are_base64_encoded() {
    let exports = exports_of("#[transform] pub fn x ( t ) { t }");
    let stub = text(&stub_defs(&exports, &ArtifactRef::Embedded(bytes("hi"))));
    assert_eq!(stub, "binding x { dispatch x \"aGk=\" }\n");
}

#[test]
fn embedded_encoding_matches_the_outside_encoder() {
    let payload: Vec<u8> = vec![0, 1, 2, 250, 251, 252];
    let exports = exports_of("#[transform] pub fn x ( t ) { t }");
    let stub = text(&stub_defs(&exports, &ArtifactRef::Embedded(payload.clone())));
    let expected = base64::encode(&payload);
    assert!(stub.contains(&format!("\"{}\"", expected)));
    assert!(!stub.contains("\u{0}"));
}

#[test]
fn no_exports_means_empty_stub_text() {
    let exports = exports_of("pub fn plain ( t ) { t }");
    assert!(stub_defs(&exports, &ArtifactRef::PathRef(bytes("p.bc"))).is_empty());
}
