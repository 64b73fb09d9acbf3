//! The build pipeline's decision core: given a unit's source text and the
//! cache's freshness verdict, decide what happens — reuse the cache, fall
//! back to an inert passthrough on unparsable text, reject the unit on a
//! validation failure, or compile: the rewritten source with its epilogue,
//! the ordered exports for the stub generator, and the artifact's content
//! hash. The caller performs the file reads, the process spawn and the
//! writes around this decision.
use vstd::prelude::*;
use crate::text::{bytes_of, lit, push_bytes};
use crate::tok::{render_toks, toks_of};
use crate::lex::{lex, lex_from};
use crate::ast::{DeclV, parse_unit_from};
use crate::parse::parse_unit;
use crate::extract::{
    Export, ExportV, ValErr, ValErrV, ValErrKind, extract, extract_from, exports_view, has_tag,
    extract_decl, lemma_extract_exports, tagged_count,
};
use crate::emit::{render_unit, unit_toks};
use crate::hash::{content_hash, fnv1a};
use crate::toolchain::{epilogue_text, with_epilogue};
use crate::cache::is_fresh;
use crate::stub::{ArtifactRefV, stub_line, stub_text, stub_text_from};

verus! {

/// Everything the toolchain invoker and the stub generator need for one
/// compilation.
#[derive(Debug)]
pub struct Prepared {
    /// The rewritten unit source with the fixed epilogue appended, ready to
    /// be piped to the external compiler.
    pub source: Vec<u8>,
    /// The exported transformations, in declaration order.
    pub exports: Vec<Export>,
    /// The content hash addressing the artifact.
    pub hash: u64,
}

#[verifier::ext_equal]
pub struct PreparedV {
    pub source: Seq<u8>,
    pub exports: Seq<ExportV>,
    pub hash: u64,
}

impl View for Prepared {
    type V = PreparedV;

    open spec fn view(&self) -> PreparedV {
        PreparedV { source: self.source@, exports: exports_view(self.exports@), hash: self.hash }
    }
}

/// What a build run does for one unit.
#[derive(Debug)]
pub enum Plan {
    /// The cached stub is still valid: skip extraction and compilation.
    UseCache,
    /// The text does not parse: emit this inert wrapper verbatim instead of
    /// aborting, so the downstream build surfaces the clearer error.
    Passthrough(Vec<u8>),
    /// A tagged declaration failed validation: abort with this error.
    Reject(ValErr),
    /// Compile the rewritten unit.
    Compile(Prepared),
}

#[verifier::ext_equal]
pub enum PlanV {
    UseCache,
    Passthrough(Seq<u8>),
    Reject(ValErrV),
    Compile(PreparedV),
}

impl View for Plan {
    type V = PlanV;

    open spec fn view(&self) -> PlanV {
        match self {
            Plan::UseCache => PlanV::UseCache,
            Plan::Passthrough(t) => PlanV::Passthrough(t@),
            Plan::Reject(e) => PlanV::Reject(e@),
            Plan::Compile(p) => PlanV::Compile(p@),
        }
    }
}

/// The inert wrapper emitted for unparsable text: the original text,
/// verbatim, inside an `inert` block that the downstream build excludes
/// from compilation.
pub open spec fn passthrough_text(text: Seq<u8>) -> Seq<u8> {
    bytes_of("inert {\n"@) + text + bytes_of("\n}\n"@)
}

/// The canonical source of a rewritten declaration list.
pub open spec fn decls_source(ds: Seq<DeclV>) -> Seq<u8> {
    render_toks(toks_of(unit_toks(ds, 0)))
}

/// The plan for one unit: reuse a fresh cache; otherwise read the text,
/// fall back to the passthrough wrapper if it cannot be read or parsed,
/// reject it on a validation failure, and compile otherwise. The artifact
/// is addressed by the content hash of the rewritten source; the compiler
/// is fed that source with the epilogue appended.
pub open spec fn plan_spec(text: Seq<u8>, fresh: bool) -> PlanV {
    if fresh {
        PlanV::UseCache
    } else {
        match lex_from(text, 1, 1) {
            Err(_) => PlanV::Passthrough(passthrough_text(text)),
            Ok(ts) => match parse_unit_from(ts, 0) {
                Err(_) => PlanV::Passthrough(passthrough_text(text)),
                Ok(ds) => match extract_from(ds, 0) {
                    Err(e) => PlanV::Reject(e),
                    Ok(r) => PlanV::Compile(
                        PreparedV {
                            source: decls_source(r.0) + epilogue_text(),
                            exports: r.1,
                            hash: fnv1a(decls_source(r.0)),
                        },
                    ),
                },
            },
        }
    }
}

/// Builds the passthrough wrapper.
fn passthrough(text: &Vec<u8>) -> (r: Vec<u8>)
    ensures
        r@ == passthrough_text(text@),
{
    proof {
        reveal_strlit("inert {\n");
        reveal_strlit("\n}\n");
    }
    let mut r: Vec<u8> = Vec::new();
    let k1 = lit("inert {\n");
    push_bytes(&mut r, &k1);
    push_bytes(&mut r, text);
    let k2 = lit("\n}\n");
    push_bytes(&mut r, &k2);
    proof {
        assert(r@ =~= passthrough_text(text@));
    }
    r
}

/// Decides what a build run does for the unit text, given the cache's
/// freshness verdict.
pub fn plan_build(text: &Vec<u8>, fresh: bool) -> (r: Plan)
    requires
        text@.len() < 0xffff_ffff_ffff_0000u64,
    ensures
        r@ == plan_spec(text@, fresh),
{
    if fresh {
        return Plan::UseCache;
    }
    let toks = match lex(text) {
        Err(_) => {
            return Plan::Passthrough(passthrough(text));
        },
        Ok(ts) => ts,
    };
    let unit = match parse_unit(&toks) {
        Err(_) => {
            return Plan::Passthrough(passthrough(text));
        },
        Ok(u) => u,
    };
    match extract(&unit) {
        Err(e) => Plan::Reject(e),
        Ok((nu, es)) => {
            let src = render_unit(&nu);
            let h = content_hash(&src);
            let full = with_epilogue(&src);
            let p = Prepared { source: full, exports: es, hash: h };
            proof {
                assert(p@ =~= plan_spec(text@, fresh)->Compile_0);
            }
            Plan::Compile(p)
        },
    }
}

// ------------------------------------------------------------------
// Pipeline laws
// ------------------------------------------------------------------
/// Idempotence: the plan is a function of the unit text alone, so two runs
/// on the same content make the same decision and, when they compile,
/// produce byte-identical rewritten source, exports and stub output; an
/// empty cache never skips compilation, and once a run has populated the
/// cache at a time newer than the input, the next run's plan is `UseCache`
/// and the toolchain invoker is not reached.
pub proof fn lemma_idempotence(text: Seq<u8>, other: Seq<u8>, t_in: u64, t_out: u64, a: ArtifactRefV)
    requires
        text == other,
        t_in < t_out,
    ensures
        !is_fresh(Some(t_in), None),
        plan_spec(text, false) == plan_spec(other, false),
        plan_spec(text, false) matches PlanV::Compile(p) ==> (plan_spec(other, false) matches
            PlanV::Compile(q) && stub_text(p.exports, a) == stub_text(q.exports, a)),
        is_fresh(Some(t_in), Some(t_out)),
        plan_spec(text, is_fresh(Some(t_in), Some(t_out))) == PlanV::UseCache,
{
}

/// Extraction correctness: on success, the exports are exactly the tagged
/// functions' names, in declaration order, and the stub generator emits one
/// binding per export, the `i`-th referencing the `i`-th export's name —
/// distinct whenever the unit's exported names are distinct.
pub open spec fn export_names(es: Seq<ExportV>) -> Seq<Seq<u8>> {
    es.map_values(|e: ExportV| e.name)
}

/// The names of the tagged functions from index `i` on, in order.
pub open spec fn tagged_names(ds: Seq<DeclV>, i: int) -> Seq<Seq<u8>>
    decreases ds.len() - i,
{
    if i < 0 || i >= ds.len() {
        Seq::empty()
    } else {
        (match ds[i] {
            DeclV::Func(f) => if has_tag(f.attrs) {
                seq![f.name]
            } else {
                Seq::empty()
            },
            DeclV::Other(_) => Seq::empty(),
        }) + tagged_names(ds, i + 1)
    }
}

proof fn lemma_export_names_concat(a: Seq<ExportV>, b: Seq<ExportV>)
    ensures
        export_names(a + b) == export_names(a) + export_names(b),
{
    assert forall|i: int| 0 <= i < a.len() + b.len() implies export_names(a + b)[i] == (
    export_names(a) + export_names(b))[i] by {
        if i < a.len() {
            assert((a + b)[i] == a[i]);
        } else {
            assert((a + b)[i] == b[i - a.len()]);
        }
    }
    assert(export_names(a + b) =~= export_names(a) + export_names(b));
}

/// On success, extraction exports exactly the tagged functions' names, in
/// declaration order.
pub proof fn lemma_extraction_order(ds: Seq<DeclV>, i: int)
    requires
        0 <= i <= ds.len(),
    ensures
        extract_from(ds, i) matches Ok(r) ==> export_names(r.1) == tagged_names(ds, i),
    decreases ds.len() - i,
{
    if i < ds.len() {
        lemma_extraction_order(ds, i + 1);
        match extract_from(ds, i) {
            Err(_) => {},
            Ok(r) => {
                let es = extract_decl(ds[i])->Ok_0.1;
                let rest = extract_from(ds, i + 1)->Ok_0.1;
                lemma_export_names_concat(es, rest);
                match ds[i] {
                    DeclV::Func(f) => {
                        if has_tag(f.attrs) {
                            assert(export_names(es) =~= seq![f.name]);
                        } else {
                            assert(export_names(es) =~= Seq::<Seq<u8>>::empty());
                        }
                    },
                    DeclV::Other(_) => {
                        assert(export_names(es) =~= Seq::<Seq<u8>>::empty());
                    },
                }
            },
        }
    } else {
        match extract_from(ds, i) {
            Err(_) => {},
            Ok(r) => {
                assert(export_names(r.1) =~= Seq::<Seq<u8>>::empty());
            },
        }
    }
}

/// Extraction correctness for the stub generator: for a unit with N tagged
/// exported functions in declaration order, extraction yields exactly N
/// exports carrying those functions' names in the same order, and the stub
/// text is their binding lines concatenated in that order (`stub_text_from`
/// unfolds one `stub_line` per export); when the unit's exported names are
/// distinct — the Exported Transformation invariant — every binding
/// references a distinct name.
pub proof fn lemma_stub_extraction(ds: Seq<DeclV>, addr: Seq<u8>)
    ensures
        extract_from(ds, 0) matches Ok(r) ==> r.1.len() == tagged_count(ds, 0),
        extract_from(ds, 0) matches Ok(r) ==> export_names(r.1) == tagged_names(ds, 0),
        extract_from(ds, 0) matches Ok(r) ==> (tagged_names(ds, 0).no_duplicates()
            ==> export_names(r.1).no_duplicates()),
        extract_from(ds, 0) matches Ok(r) ==> (forall|i: int|
            0 <= i < r.1.len() ==> stub_text_from(r.1, addr, i) == stub_line(r.1[i], addr)
                + stub_text_from(r.1, addr, i + 1)),
{
    lemma_extract_exports(ds, 0);
    lemma_extraction_order(ds, 0);
}

/// Validation: a tagged declaration that is not a function yields
/// `ShapeError`; a tagged function lacking public visibility yields
/// `VisibilityError`; a tagged function with an explicit calling convention
/// yields `ConflictingAbiError` — and whenever extraction fails, the plan
/// rejects the unit, so no toolchain invocation occurs.
pub proof fn lemma_validation(d: DeclV, text: Seq<u8>)
    ensures
        (d matches DeclV::Other(o) && has_tag(o.attrs)) ==> extract_decl(d) == Err::<
            (DeclV, Seq<ExportV>),
            _,
        >(ValErrV { span: d->Other_0.span, kind: ValErrKind::ShapeError }),
        (d matches DeclV::Func(f) && has_tag(f.attrs) && !f.is_pub) ==> extract_decl(d) == Err::<
            (DeclV, Seq<ExportV>),
            _,
        >(ValErrV { span: d->Func_0.name_span, kind: ValErrKind::VisibilityError }),
        (d matches DeclV::Func(f) && has_tag(f.attrs) && f.is_pub && f.abi is Some)
            ==> extract_decl(d) == Err::<(DeclV, Seq<ExportV>), _>(
            ValErrV { span: d->Func_0.abi->Some_0.span, kind: ValErrKind::ConflictingAbiError },
        ),
        ({
            let l = lex_from(text, 1, 1);
            l is Ok ==> {
                let p = parse_unit_from(l->Ok_0, 0);
                p is Ok ==> {
                    let x = extract_from(p->Ok_0, 0);
                    x is Err ==> plan_spec(text, false) == PlanV::Reject(x->Err_0)
                }
            }
        }),
{
}

/// Malformed input: text the lexer or parser refuses is planned as a
/// passthrough wrapper that contains the original text verbatim, and no
/// toolchain failure (indeed no compilation at all) arises.
pub proof fn lemma_passthrough(text: Seq<u8>)
    ensures
        (lex_from(text, 1, 1) is Err || (lex_from(text, 1, 1) matches Ok(ts) && parse_unit_from(
            ts,
            0,
        ) is Err)) ==> plan_spec(text, false) == PlanV::Passthrough(passthrough_text(text)),
        passthrough_text(text).subrange(8, 8 + text.len() as int) == text,
{
    reveal_strlit("inert {\n");
    reveal_strlit("\n}\n");
    assert(bytes_of("inert {\n"@).len() == 8);
    assert(passthrough_text(text).subrange(8, 8 + text.len() as int) =~= text);
}

} // verus!
