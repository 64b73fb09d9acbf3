use tokenpipe::cache::{artifact_path, in_path, out_path};
use tokenpipe::hash::content_hash;
use tokenpipe::toolchain::{target_installed, toolchain_args, with_epilogue, Archive, ToolchainConfig};

fn bytes(s: &str) -> Vec<u8> {
    s.as_bytes().to_vec()
}

fn text(v: &[u8]) -> String {
    String::from_utf8(v.to_vec()).unwrap()
}

#[test]
fn builds_the_exact_compiler_command_line() {
    let cfg = ToolchainConfig {
        target: bytes("wasm-core"),
        unit_crate_name: bytes("unit_mod"),
        edition: bytes("2021"),
    };
    let archives = vec![
        Archive { name: bytes("tokens"), path: bytes("/scratch/libtokens.ar") },
        Archive { name: bytes("quoting"), path: bytes("/scratch/libquoting.ar") },
    ];
    let args = toolchain_args(&cfg, &bytes("/scratch/unit_1.bc"), &archives);
    let shown: Vec<String> = args.iter().map(|a| text(a)).collect();
    assert_eq!(
        shown,
        vec![
            "-",
            "-o",
            "/scratch/unit_1.bc",
            "--target",
            "wasm-core",
            "--edition",
            "2021",
            "--module-kind",
            "cdynamic",
            "--crate-name",
            "unit_mod",
            "--link",
            "tokens=/scratch/libtokens.ar",
            "--link",
            "quoting=/scratch/libquoting.ar",
        ]
    );
}

#[test]
fn appends_the_fixed_epilogue() {
    let out = with_epilogue(&bytes("pub fn f ( t ) { t }"));
    assert_eq!(
        text(&out),
        "pub fn f ( t ) { t }\nuse sandbox_tokens as TokenSeq ;\nuse sandbox_parse_or_bail as parse_input ;\n"
    );
}

#[test]
fn finds_an_installed_target_with_surrounding_whitespace() {
    let listing = bytes("alpha\n  wasm-core  \nbeta\n");
    assert!(target_installed(&listing, &bytes("wasm-core")));
    assert!(target_installed(&listing, &bytes("alpha")));
    assert!(target_installed(&listing, &bytes("beta")));
    assert!(!target_installed(&listing, &bytes("gamma")));
    assert!(!target_installed(&listing, &bytes("wasm")));
}

#[test]
fn empty_listing_names_nothing() {
    assert!(!target_installed(&bytes(""), &bytes("wasm-core")));
}

#[test]
fn derives_cache_and_artifact_paths() {
    assert_eq!(
        text(&in_path(&bytes("/proj"), &bytes("macros"))),
        "/proj/src/macros.tu"
    );
    assert_eq!(
        text(&out_path(&bytes("/scratch"), &bytes("macros"))),
        "/scratch/macros.stub"
    );
    assert_eq!(
        text(&artifact_path(&bytes("/scratch"), 0xdeadbeef)),
        "/scratch/unit_00000000deadbeef.bc"
    );
}

#[test]
fn content_hash_matches_the_reference_vectors() {
    assert_eq!(content_hash(&Vec::new()), 0xcbf29ce484222325);
    assert_eq!(content_hash(&bytes("a")), 0xaf63dc4c8601ec8c);
    assert_eq!(content_hash(&bytes("foobar")), 0x85944171f73967e8);
    // Identical bytes address the same artifact; different bytes are
    // expected to differ.
    assert_eq!(content_hash(&bytes("same")), content_hash(&bytes("same")));
    assert_ne!(content_hash(&bytes("one")), content_hash(&bytes("two")));
}
