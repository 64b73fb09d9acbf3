use tokenpipe::dispatch::{
    marshal_payload, parse_dispatch, truncated_render, unmarshal_outcome, DispatchErr, VmOutcome,
};
use tokenpipe::lex::lex;
use tokenpipe::pipeline::{plan_build, Plan};
use tokenpipe::stub::{stub_defs, ArtifactRef};
use tokenpipe::tok::render;

fn bytes(s: &str) -> Vec<u8> {
    s.as_bytes().to_vec()
}

fn text(v: &[u8]) -> String {
    String::from_utf8(v.to_vec()).unwrap()
}

#[test]
fn decodes_the_flat_dispatch_encoding() {
    let toks = lex(&bytes("f \"/scratch/unit_1.bc\" 1 + 1")).unwrap();
    let call = parse_dispatch(&toks).unwrap();
    assert_eq!(call.name, bytes("f"));
    assert_eq!(call.addr, bytes("/scratch/unit_1.bc"));
    assert_eq!(text(&marshal_payload(&call)), "1 + 1");
}

#[test]
fn missing_name_and_address_are_reported() {
    let toks = lex(&bytes("")).unwrap();
    assert!(matches!(
        parse_dispatch(&toks).unwrap_err(),
        DispatchErr::MissingName
    ));
    let toks = lex(&bytes("f name_not_a_literal")).unwrap();
    assert!(matches!(
        parse_dispatch(&toks).unwrap_err(),
        DispatchErr::MissingAddress
    ));
}

#[test]
fn identity_round_trip_is_textually_equal() {
    let toks = lex(&bytes("a + ( b * 2 )")).unwrap();
    let sent = render(&toks);
    // The exported function returns its input unchanged.
    let got = unmarshal_outcome(VmOutcome::Output(sent.clone())).unwrap();
    assert_eq!(render(&got), sent);
}

#[test]
fn missing_export_and_traps_are_fatal() {
    assert!(matches!(
        unmarshal_outcome(VmOutcome::MissingExport).unwrap_err(),
        DispatchErr::MissingExportError
    ));
    match unmarshal_outcome(VmOutcome::Trap(bytes("stack exhausted"))).unwrap_err() {
        DispatchErr::VmTrap(m) => assert_eq!(m, bytes("stack exhausted")),
        _ => panic!("expected a trap"),
    }
}

#[test]
fn unreadable_result_buffers_are_reported() {
    match unmarshal_outcome(VmOutcome::Output(bytes("\"oops"))).unwrap_err() {
        DispatchErr::Unreadable(e) => assert_eq!(e.col, 1),
        _ => panic!("expected an unreadable buffer"),
    }
}

#[test]
fn end_to_end_identity_scenario() {
    // A unit with one tagged function that returns its input unchanged.
    let unit = bytes("#[transform] pub fn f ( ts ) { ts }");
    let prepared = match plan_build(&unit, false) {
        Plan::Compile(p) => p,
        _ => panic!("expected a compilation"),
    };
    assert_eq!(prepared.exports.len(), 1);
    assert_eq!(prepared.exports[0].name, bytes("f"));
    // The toolchain produced artifact bytes at this address.
    let addr = "/scratch/unit_00000000deadbeef.bc";
    let stub = stub_defs(
        &prepared.exports,
        &ArtifactRef::PathRef(bytes(addr)),
    );
    assert_eq!(
        text(&stub),
        format!("binding f {{ dispatch f \"{}\" }}\n", addr)
    );
    // A later call site triggers the binding with the payload `1 + 1`.
    let call_toks = lex(&bytes(&format!("f \"{}\" 1 + 1", addr))).unwrap();
    let call = parse_dispatch(&call_toks).unwrap();
    assert_eq!(call.name, bytes("f"));
    assert_eq!(call.addr, bytes(addr));
    let arg = marshal_payload(&call);
    assert_eq!(text(&arg), "1 + 1");
    // The sandboxed function is the identity, so the machine hands the
    // argument buffer back; the dispatched result is `1 + 1` again.
    let result = unmarshal_outcome(VmOutcome::Output(arg)).unwrap();
    assert_eq!(text(&render(&result)), "1 + 1");
}

#[test]
fn short_traces_pass_through_whole() {
    let s = bytes("short trace");
    assert_eq!(truncated_render(&s), s);
}

#[test]
fn long_traces_are_capped() {
    let s = vec![97u8; 1001];
    let out = truncated_render(&s);
    let shown = text(&out);
    assert!(shown.starts_with(&"a".repeat(400)));
    assert!(shown.ends_with(&"a".repeat(400)));
    assert!(shown.contains("[...201 bytes...]"));
    assert_eq!(out.len(), 400 + 400 + "[...201 bytes...]".len());
}
