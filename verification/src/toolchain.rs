//! The toolchain invoker's deterministic half: the exact command line for
//! the external bytecode compiler, the fixed epilogue appended to the unit
//! source, and the check whether the required target is already installed.
//! Spawning the process, feeding standard input and collecting the exit
//! status are I/O and live with the caller.
use vstd::prelude::*;
use crate::text::{bytes_of, is_space, lit, push_bytes, space_byte};

verus! {

/// Configuration for one external-compiler invocation, threaded in
/// explicitly so the construction is deterministic and testable.
pub struct ToolchainConfig {
    /// The portable bytecode target identifier.
    pub target: Vec<u8>,
    /// The module name given to the compiled unit.
    pub unit_crate_name: Vec<u8>,
    /// The language edition flag value.
    pub edition: Vec<u8>,
}

#[verifier::ext_equal]
pub struct ToolchainConfigV {
    pub target: Seq<u8>,
    pub unit_crate_name: Seq<u8>,
    pub edition: Seq<u8>,
}

impl View for ToolchainConfig {
    type V = ToolchainConfigV;

    open spec fn view(&self) -> ToolchainConfigV {
        ToolchainConfigV {
            target: self.target@,
            unit_crate_name: self.unit_crate_name@,
            edition: self.edition@,
        }
    }
}

/// A precompiled dependency archive, materialized by the caller into the
/// scratch directory before the compiler runs.
pub struct Archive {
    pub name: Vec<u8>,
    pub path: Vec<u8>,
}

#[verifier::ext_equal]
pub struct ArchiveV {
    pub name: Seq<u8>,
    pub path: Seq<u8>,
}

impl View for Archive {
    type V = ArchiveV;

    open spec fn view(&self) -> ArchiveV {
        ArchiveV { name: self.name@, path: self.path@ }
    }
}

pub open spec fn archives_view(v: Seq<Archive>) -> Seq<ArchiveV> {
    v.map_values(|a: Archive| a@)
}

pub open spec fn args_view(v: Seq<Vec<u8>>) -> Seq<Seq<u8>> {
    v.map_values(|a: Vec<u8>| a@)
}

proof fn lemma_args_view_push(v: Seq<Vec<u8>>, a: Vec<u8>)
    ensures
        args_view(v.push(a)) == args_view(v).push(a@),
{
    assert forall|i: int| 0 <= i < v.len() + 1 implies args_view(v.push(a))[i] == args_view(
        v,
    ).push(a@)[i] by {
        if i < v.len() {
            assert(v.push(a)[i] == v[i]);
        } else {
            assert(v.push(a)[i] == a);
        }
    }
    assert(args_view(v.push(a)) =~= args_view(v).push(a@));
}

/// One `--link name=path` value.
pub open spec fn link_arg(a: ArchiveV) -> Seq<u8> {
    a.name + seq![61u8] + a.path
}

/// The linkage flags for the archives from index `i` on.
pub open spec fn link_args(ars: Seq<ArchiveV>, i: int) -> Seq<Seq<u8>>
    decreases ars.len() - i,
{
    if i < 0 || i >= ars.len() {
        Seq::empty()
    } else {
        seq![bytes_of("--link"@), link_arg(ars[i])] + link_args(ars, i + 1)
    }
}

/// The full argument list for one compiler invocation: source piped on
/// standard input, the output path, the bytecode target, the edition, the
/// export strategy that keeps only designated exports visible at the module
/// boundary, the module name, and one linkage flag per archive.
pub open spec fn toolchain_args_spec(
    cfg: ToolchainConfigV,
    out_path: Seq<u8>,
    ars: Seq<ArchiveV>,
) -> Seq<Seq<u8>> {
    seq![
        bytes_of("-"@),
        bytes_of("-o"@),
        out_path,
        bytes_of("--target"@),
        cfg.target,
        bytes_of("--edition"@),
        cfg.edition,
        bytes_of("--module-kind"@),
        bytes_of("cdynamic"@),
        bytes_of("--crate-name"@),
        cfg.unit_crate_name,
    ] + link_args(ars, 0)
}

/// Builds the compiler argument list.
pub fn toolchain_args(cfg: &ToolchainConfig, out_path: &Vec<u8>, ars: &Vec<Archive>) -> (r: Vec<
    Vec<u8>,
>)
    ensures
        args_view(r@) == toolchain_args_spec(cfg@, out_path@, archives_view(ars@)),
{
    proof {
        reveal_strlit("-");
        reveal_strlit("-o");
        reveal_strlit("--target");
        reveal_strlit("--edition");
        reveal_strlit("--module-kind");
        reveal_strlit("cdynamic");
        reveal_strlit("--crate-name");
        reveal_strlit("--link");
    }
    let ghost av = archives_view(ars@);
    let mut r: Vec<Vec<u8>> = Vec::new();
    r.push(lit("-"));
    r.push(lit("-o"));
    r.push(vstd::slice::slice_to_vec(out_path.as_slice()));
    r.push(lit("--target"));
    r.push(vstd::slice::slice_to_vec(cfg.target.as_slice()));
    r.push(lit("--edition"));
    r.push(vstd::slice::slice_to_vec(cfg.edition.as_slice()));
    r.push(lit("--module-kind"));
    r.push(lit("cdynamic"));
    r.push(lit("--crate-name"));
    r.push(vstd::slice::slice_to_vec(cfg.unit_crate_name.as_slice()));
    proof {
        assert(args_view(r@) + link_args(av, 0) =~= toolchain_args_spec(cfg@, out_path@, av));
    }
    let mut k: usize = 0;
    while k < ars.len()
        invariant
            k <= ars@.len(),
            av == archives_view(ars@),
            av.len() == ars@.len(),
            args_view(r@) + link_args(av, k as int) =~= toolchain_args_spec(
                cfg@,
                out_path@,
                av,
            ),
        decreases ars@.len() - k,
    {
        proof {
            reveal_strlit("--link");
            assert(av[k as int] == ars@[k as int]@);
        }
        let f = lit("--link");
        let ghost r0 = args_view(r@);
        let ghost fv = f@;
        proof {
            lemma_args_view_push(r@, f);
        }
        r.push(f);
        let mut v: Vec<u8> = Vec::new();
        push_bytes(&mut v, &ars[k].name);
        v.push(61);
        push_bytes(&mut v, &ars[k].path);
        proof {
            assert(v@ =~= link_arg(av[k as int]));
            lemma_args_view_push(r@, v);
        }
        r.push(v);
        k = k + 1;
        proof {
            assert(args_view(r@) =~= r0.push(bytes_of("--link"@)).push(link_arg(
                av[k as int - 1],
            )));
            assert(link_args(av, k as int - 1) == seq![bytes_of("--link"@), link_arg(
                av[k as int - 1],
            )] + link_args(av, k as int));
            assert(args_view(r@) + link_args(av, k as int) =~= toolchain_args_spec(
                cfg@,
                out_path@,
                av,
            ));
        }
    }
    proof {
        assert(link_args(av, k as int) =~= Seq::<Seq<u8>>::empty());
        assert(args_view(r@) =~= toolchain_args_spec(cfg@, out_path@, av));
    }
    r
}

/// The fixed text appended after the user source before it is piped to the
/// compiler: it aliases the sandbox's token-sequence type to the name user
/// code expects, and brings the parse-or-bail helper into scope, so code
/// written against the ordinary token interface compiles unmodified inside
/// the sandbox.
pub open spec fn epilogue_text() -> Seq<u8> {
    bytes_of("\nuse sandbox_tokens as TokenSeq ;\nuse sandbox_parse_or_bail as parse_input ;\n"@)
}

/// Appends the fixed epilogue to the rewritten unit source.
pub fn with_epilogue(source: &Vec<u8>) -> (r: Vec<u8>)
    ensures
        r@ == source@ + epilogue_text(),
{
    proof {
        reveal_strlit(
            "\nuse sandbox_tokens as TokenSeq ;\nuse sandbox_parse_or_bail as parse_input ;\n",
        );
    }
    let mut r: Vec<u8> = Vec::new();
    push_bytes(&mut r, source);
    let e = lit("\nuse sandbox_tokens as TokenSeq ;\nuse sandbox_parse_or_bail as parse_input ;\n");
    push_bytes(&mut r, &e);
    r
}

// ------------------------------------------------------------------
// Installed-target check
// ------------------------------------------------------------------
/// The index of the first line break at or after `i`, or the end.
pub open spec fn line_end(s: Seq<u8>, i: int) -> int
    decreases s.len() - i,
{
    if i < 0 || i >= s.len() {
        s.len() as int
    } else if s[i] == 10 {
        i
    } else {
        line_end(s, i + 1)
    }
}

pub proof fn lemma_line_end_bounds(s: Seq<u8>, i: int)
    requires
        0 <= i <= s.len(),
    ensures
        i <= line_end(s, i) <= s.len(),
        line_end(s, i) < s.len() ==> s[line_end(s, i)] == 10,
        forall|m: int| i <= m < line_end(s, i) ==> s[m] != 10,
    decreases s.len() - i,
{
    if i < s.len() && s[i] != 10 {
        lemma_line_end_bounds(s, i + 1);
    }
}

/// The sequence without its leading whitespace.
pub open spec fn trim_front(s: Seq<u8>) -> Seq<u8>
    decreases s.len(),
{
    if s.len() > 0 && is_space(s[0]) {
        trim_front(s.drop_first())
    } else {
        s
    }
}

/// The sequence without its trailing whitespace.
pub open spec fn trim_back(s: Seq<u8>) -> Seq<u8>
    decreases s.len(),
{
    if s.len() > 0 && is_space(s.last()) {
        trim_back(s.drop_last())
    } else {
        s
    }
}

/// The sequence without leading and trailing whitespace.
pub open spec fn trimmed(s: Seq<u8>) -> Seq<u8> {
    trim_back(trim_front(s))
}

proof fn lemma_trim_front_exact(s: Seq<u8>, k: int)
    requires
        0 <= k <= s.len(),
        forall|m: int| 0 <= m < k ==> is_space(#[trigger] s[m]),
        k == s.len() || !is_space(s[k]),
    ensures
        trim_front(s) == s.skip(k),
    decreases k,
{
    if k == 0 {
        assert(trim_front(s) =~= s.skip(0));
    } else {
        assert(forall|m: int| 0 <= m < k - 1 ==> #[trigger] s.drop_first()[m] == s[m + 1]);
        lemma_trim_front_exact(s.drop_first(), k - 1);
        assert(s.drop_first().skip(k - 1) =~= s.skip(k));
    }
}

proof fn lemma_trim_back_exact(s: Seq<u8>, k: int)
    requires
        0 <= k <= s.len(),
        forall|m: int| k <= m < s.len() ==> is_space(#[trigger] s[m]),
        k == 0 || !is_space(s[k - 1]),
    ensures
        trim_back(s) == s.take(k),
    decreases s.len(),
{
    if k == s.len() {
        if s.len() > 0 && is_space(s.last()) {
            assert(!is_space(s[k - 1]));
            assert(false);
        }
        assert(trim_back(s) =~= s.take(k));
    } else {
        assert(is_space(s.last()));
        assert(forall|m: int| 0 <= m < s.len() - 1 ==> #[trigger] s.drop_last()[m] == s[m]);
        lemma_trim_back_exact(s.drop_last(), k);
        assert(s.drop_last().take(k) =~= s.take(k));
    }
}

/// Whether some line of `s`, read from line start `i`, equals `t` after
/// trimming surrounding whitespace.
pub open spec fn target_listed_from(s: Seq<u8>, i: int, t: Seq<u8>) -> bool
    decreases s.len() - i,
    via target_listed_from_dec
{
    if i < 0 || i > s.len() {
        false
    } else {
        let j = line_end(s, i);
        trimmed(s.subrange(i, j)) == t || (j < s.len() && target_listed_from(s, j + 1, t))
    }
}

#[via_fn]
proof fn target_listed_from_dec(s: Seq<u8>, i: int, t: Seq<u8>) {
    if 0 <= i <= s.len() {
        lemma_line_end_bounds(s, i);
    }
}

/// Whether the listing `s` (one entry per line) names `t`.
pub open spec fn target_listed(s: Seq<u8>, t: Seq<u8>) -> bool {
    target_listed_from(s, 0, t)
}

/// Trims the line `[i, j)` of `s`: the trimmed bounds.
fn trim_bounds(s: &Vec<u8>, i: usize, j: usize) -> (r: (usize, usize))
    requires
        i <= j <= s@.len(),
    ensures
        i <= r.0 <= r.1 <= j,
        trimmed(s@.subrange(i as int, j as int)) == s@.subrange(r.0 as int, r.1 as int),
{
    let ghost line = s@.subrange(i as int, j as int);
    let mut a = i;
    while a < j && space_byte(s[a])
        invariant
            i <= a <= j <= s@.len(),
            forall|m: int| i <= m < a ==> is_space(#[trigger] s@[m]),
        decreases j - a,
    {
        a = a + 1;
    }
    let mut b = j;
    while b > a && space_byte(s[b - 1])
        invariant
            a <= b <= j <= s@.len(),
            forall|m: int| b <= m < j ==> is_space(#[trigger] s@[m]),
        decreases b,
    {
        b = b - 1;
    }
    proof {
        assert(forall|m: int| 0 <= m < line.len() ==> line[m] == s@[m + i]);
        lemma_trim_front_exact(line, a - i);
        let mid = line.skip(a - i);
        assert(forall|m: int| 0 <= m < mid.len() ==> mid[m] == s@[m + a]);
        lemma_trim_back_exact(mid, b - a);
        assert(mid.take(b - a) =~= s@.subrange(a as int, b as int));
    }
    (a, b)
}

/// Whether `s@[i..j] == t@`.
fn range_eq(s: &Vec<u8>, i: usize, j: usize, t: &Vec<u8>) -> (r: bool)
    requires
        i <= j <= s@.len(),
    ensures
        r == (s@.subrange(i as int, j as int) == t@),
{
    if j - i != t.len() {
        proof {
            assert(s@.subrange(i as int, j as int).len() != t@.len());
        }
        return false;
    }
    let mut k: usize = 0;
    while k < t.len()
        invariant
            i <= j <= s@.len(),
            k <= t@.len(),
            t@.len() == j - i,
            forall|m: int| 0 <= m < k ==> s@[i + m] == t@[m],
        decreases t@.len() - k,
    {
        if s[i + k] != t[k] {
            proof {
                assert(s@.subrange(i as int, j as int)[k as int] != t@[k as int]);
            }
            return false;
        }
        k = k + 1;
    }
    proof {
        assert(s@.subrange(i as int, j as int) =~= t@);
    }
    true
}

/// Whether the target listing (one installed target per line, as the
/// toolchain manager prints it) already names the wanted target.
pub fn target_installed(listing: &Vec<u8>, target: &Vec<u8>) -> (r: bool)
    ensures
        r == target_listed(listing@, target@),
{
    let n = listing.len();
    let mut i: usize = 0;
    loop
        invariant
            i <= n,
            n == listing@.len(),
            target_listed(listing@, target@) == target_listed_from(
                listing@,
                i as int,
                target@,
            ),
        decreases n - i,
    {
        // Find the end of the line starting at i.
        let mut j = i;
        while j < n && listing[j] != 10
            invariant
                i <= j <= n,
                n == listing@.len(),
                forall|m: int| i <= m < j ==> listing@[m] != 10,
            decreases n - j,
        {
            j = j + 1;
        }
        proof {
            lemma_line_end_exact(listing@, i as int, j as int);
        }
        let (a, b) = trim_bounds(listing, i, j);
        if range_eq(listing, a, b, target) {
            return true;
        }
        if j >= n {
            return false;
        }
        i = j + 1;
    }
}

pub proof fn lemma_line_end_exact(s: Seq<u8>, i: int, j: int)
    requires
        0 <= i <= j <= s.len(),
        forall|m: int| i <= m < j ==> s[m] != 10,
        j == s.len() || s[j] == 10,
    ensures
        line_end(s, i) == j,
    decreases j - i,
{
    if i < j {
        lemma_line_end_exact(s, i + 1, j);
    }
}

} // verus!
