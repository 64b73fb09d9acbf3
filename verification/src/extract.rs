//! The extractor/rewriter: finds the declarations tagged as exported
//! transformations, validates their shape, strips the tag, and rewrites each
//! into its externally-callable, sandbox-exportable form. The ordered list
//! of exported names (with the original annotations that remain after the
//! tag is stripped) is collected for the stub generator.
use vstd::prelude::*;
use vstd::slice::slice_to_vec;
use crate::text::{bytes_of, lit};
use crate::tok::{append_stoks, copy_range, Delim, Span, SpanV, STok, STokV, Tok, TokV, stoks_view};
use crate::ast::{
    Abi, AbiV, Attr, AttrV, Decl, DeclV, FnDecl, FnDeclV, OtherDecl, OtherDeclV, Unit, UnitV,
    attrs_view, decls_view,
};

verus! {

/// The marker attribute that designates an exported transformation.
pub open spec fn tag_name() -> Seq<u8> {
    bytes_of("transform"@)
}

/// The word naming the linkage attribute forced onto rewritten functions.
pub open spec fn no_mangle_name() -> Seq<u8> {
    bytes_of("no_mangle"@)
}

/// The calling convention forced onto rewritten functions.
pub open spec fn abi_c() -> Seq<u8> {
    bytes_of("C"@)
}

/// The helper the sandbox runtime supplies; rewritten bodies call it first,
/// so a trap handler is installed before any user logic runs.
pub open spec fn trap_install_name() -> Seq<u8> {
    bytes_of("install_sandbox_trap"@)
}

/// Whether an attribute is the transformation tag.
pub open spec fn is_tag_attr(a: AttrV) -> bool {
    a.name == tag_name()
}

/// Whether an attribute list carries the tag.
pub open spec fn has_tag(attrs: Seq<AttrV>) -> bool {
    exists|i: int| 0 <= i < attrs.len() && is_tag_attr(#[trigger] attrs[i])
}

/// The attribute list with every tag occurrence removed.
pub open spec fn strip_tag(attrs: Seq<AttrV>) -> Seq<AttrV>
    decreases attrs.len(),
{
    if attrs.len() == 0 {
        Seq::empty()
    } else if is_tag_attr(attrs[0]) {
        strip_tag(attrs.drop_first())
    } else {
        seq![attrs[0]] + strip_tag(attrs.drop_first())
    }
}

/// A structural validation failure, with the offending declaration's span.
#[derive(Clone, Copy, PartialEq, Eq, Structural, Debug)]
pub enum ValErrKind {
    /// The tagged declaration is not a function.
    ShapeError,
    /// The tagged function is not publicly visible.
    VisibilityError,
    /// The tagged function already declares a calling convention.
    ConflictingAbiError,
}

#[derive(Clone, Copy, PartialEq, Eq, Structural, Debug)]
pub struct ValErr {
    pub span: Span,
    pub kind: ValErrKind,
}

#[verifier::ext_equal]
pub struct ValErrV {
    pub span: SpanV,
    pub kind: ValErrKind,
}

impl View for ValErr {
    type V = ValErrV;

    open spec fn view(&self) -> ValErrV {
        ValErrV { span: self.span@, kind: self.kind }
    }
}

/// One exported transformation: its name and the annotations that stay with
/// the generated stub (everything the declaration carried minus the tag).
#[derive(Debug)]
pub struct Export {
    pub name: Vec<u8>,
    pub name_span: Span,
    pub attrs: Vec<Attr>,
}

#[verifier::ext_equal]
pub struct ExportV {
    pub name: Seq<u8>,
    pub name_span: SpanV,
    pub attrs: Seq<AttrV>,
}

impl View for Export {
    type V = ExportV;

    open spec fn view(&self) -> ExportV {
        ExportV { name: self.name@, name_span: self.name_span@, attrs: attrs_view(self.attrs@) }
    }
}

pub open spec fn exports_view(v: Seq<Export>) -> Seq<ExportV> {
    v.map_values(|e: Export| e@)
}

pub proof fn lemma_exports_view_push(v: Seq<Export>, e: Export)
    ensures
        exports_view(v.push(e)) == exports_view(v).push(e@),
{
    assert forall|i: int| 0 <= i < v.len() + 1 implies exports_view(v.push(e))[i] == exports_view(
        v,
    ).push(e@)[i] by {
        if i < v.len() {
            assert(v.push(e)[i] == v[i]);
        } else {
            assert(v.push(e)[i] == e);
        }
    }
    assert(exports_view(v.push(e)) =~= exports_view(v).push(e@));
}

/// The synthesized linkage attribute, spanned to the function's name.
pub open spec fn no_mangle_attr(sp: SpanV) -> AttrV {
    AttrV {
        name: no_mangle_name(),
        span: sp,
        toks: seq![
            STokV { tok: TokV::Punct(35), span: sp },
            STokV { tok: TokV::Open(Delim::Bracket), span: sp },
            STokV { tok: TokV::Word(no_mangle_name()), span: sp },
            STokV { tok: TokV::Close(Delim::Bracket), span: sp },
        ],
    }
}

/// The synthesized statement that installs the sandbox trap handler:
/// `install_sandbox_trap ( ) ;`.
pub open spec fn trap_install_toks(sp: SpanV) -> Seq<STokV> {
    seq![
        STokV { tok: TokV::Word(trap_install_name()), span: sp },
        STokV { tok: TokV::Open(Delim::Paren), span: sp },
        STokV { tok: TokV::Close(Delim::Paren), span: sp },
        STokV { tok: TokV::Punct(59), span: sp },
    ]
}

/// The exported form of a validated tagged function: only the linkage
/// attribute, forced public visibility, the owned calling convention, and
/// the trap-handler installation as the body's first statement.
pub open spec fn rewrite_fn(f: FnDeclV) -> FnDeclV {
    FnDeclV {
        attrs: seq![no_mangle_attr(f.name_span)],
        is_pub: true,
        abi: Some(AbiV { conv: abi_c(), span: f.name_span }),
        name: f.name,
        name_span: f.name_span,
        sig: f.sig,
        body: trap_install_toks(f.name_span) + f.body,
    }
}

/// Extraction of one declaration: validation, rewrite, and the exports it
/// contributes.
pub open spec fn extract_decl(d: DeclV) -> Result<(DeclV, Seq<ExportV>), ValErrV> {
    match d {
        DeclV::Other(o) => if has_tag(o.attrs) {
            Err(ValErrV { span: o.span, kind: ValErrKind::ShapeError })
        } else {
            Ok((d, Seq::empty()))
        },
        DeclV::Func(f) => if !has_tag(f.attrs) {
            Ok((d, Seq::empty()))
        } else if !f.is_pub {
            Err(ValErrV { span: f.name_span, kind: ValErrKind::VisibilityError })
        } else if f.abi is Some {
            Err(ValErrV { span: f.abi->Some_0.span, kind: ValErrKind::ConflictingAbiError })
        } else {
            Ok(
                (
                    DeclV::Func(rewrite_fn(f)),
                    seq![
                        ExportV {
                            name: f.name,
                            name_span: f.name_span,
                            attrs: strip_tag(f.attrs),
                        },
                    ],
                ),
            )
        },
    }
}

/// Extraction of a unit's declarations from index `i` on: the rewritten
/// declarations in order, and the exports in declaration order. The first
/// validation failure wins.
pub open spec fn extract_from(ds: Seq<DeclV>, i: int) -> Result<
    (Seq<DeclV>, Seq<ExportV>),
    ValErrV,
>
    decreases ds.len() - i,
{
    if i < 0 || i >= ds.len() {
        Ok((Seq::empty(), Seq::empty()))
    } else {
        match extract_decl(ds[i]) {
            Err(e) => Err(e),
            Ok((d, es)) => match extract_from(ds, i + 1) {
                Err(e) => Err(e),
                Ok((rest, es2)) => Ok((seq![d] + rest, es + es2)),
            },
        }
    }
}

/// Extraction over a whole unit.
pub open spec fn extract_spec(u: UnitV) -> Result<(Seq<DeclV>, Seq<ExportV>), ValErrV> {
    extract_from(u.decls, 0)
}

/// The tagged declarations of a unit, in order (what extraction exports).
pub open spec fn tagged_count(ds: Seq<DeclV>, i: int) -> int
    decreases ds.len() - i,
{
    if i < 0 || i >= ds.len() {
        0
    } else {
        (match ds[i] {
            DeclV::Func(f) => if has_tag(f.attrs) {
                1int
            } else {
                0int
            },
            DeclV::Other(_) => 0int,
        }) + tagged_count(ds, i + 1)
    }
}

/// On success, extraction yields exactly one export per tagged function, in
/// declaration order, carrying that function's name.
pub proof fn lemma_extract_exports(ds: Seq<DeclV>, i: int)
    requires
        0 <= i <= ds.len(),
    ensures
        extract_from(ds, i) matches Ok(r) ==> r.0.len() == ds.len() - i && r.1.len()
            == tagged_count(ds, i),
    decreases ds.len() - i,
{
    if i < ds.len() {
        lemma_extract_exports(ds, i + 1);
    }
}

// ------------------------------------------------------------------
// Executable extraction
// ------------------------------------------------------------------
/// Copies an attribute.
fn copy_attr(a: &Attr) -> (r: Attr)
    ensures
        r@ == a@,
{
    let toks = copy_range(&a.toks, 0, a.toks.len());
    proof {
        assert(stoks_view(a.toks@).subrange(0, a.toks@.len() as int) =~= stoks_view(a.toks@));
    }
    let r = Attr { name: slice_to_vec(a.name.as_slice()), span: a.span, toks };
    proof {
        assert(r@ =~= a@);
    }
    r
}

/// Whether the attribute is the transformation tag.
fn is_tag_attr_x(a: &Attr) -> (r: bool)
    ensures
        r == is_tag_attr(a@),
{
    proof {
        reveal_strlit("transform");
    }
    let t = lit("transform");
    crate::parse::eq_bytes(&a.name, &t)
}

/// Whether the attribute list carries the tag.
fn has_tag_x(attrs: &Vec<Attr>) -> (r: bool)
    ensures
        r == has_tag(attrs_view(attrs@)),
{
    let mut k: usize = 0;
    while k < attrs.len()
        invariant
            k <= attrs@.len(),
            forall|m: int| 0 <= m < k ==> !is_tag_attr(#[trigger] attrs_view(attrs@)[m]),
        decreases attrs@.len() - k,
    {
        if is_tag_attr_x(&attrs[k]) {
            proof {
                assert(attrs_view(attrs@)[k as int] == attrs@[k as int]@);
                assert(is_tag_attr(attrs_view(attrs@)[k as int]));
            }
            return true;
        }
        proof {
            assert(attrs_view(attrs@)[k as int] == attrs@[k as int]@);
        }
        k = k + 1;
    }
    false
}

/// Copies the attribute list with every tag occurrence removed.
fn strip_tag_x(attrs: &Vec<Attr>) -> (r: Vec<Attr>)
    ensures
        attrs_view(r@) == strip_tag(attrs_view(attrs@)),
{
    let ghost av = attrs_view(attrs@);
    let mut out: Vec<Attr> = Vec::new();
    let mut k: usize = 0;
    proof {
        assert(attrs_view(out@) =~= Seq::<AttrV>::empty());
        assert(av.skip(0) =~= av);
        assert(Seq::<AttrV>::empty() + strip_tag(av) =~= strip_tag(av));
    }
    while k < attrs.len()
        invariant
            k <= attrs@.len(),
            av == attrs_view(attrs@),
            av.len() == attrs@.len(),
            strip_tag(av) == attrs_view(out@) + strip_tag(av.skip(k as int)),
        decreases attrs@.len() - k,
    {
        let ghost suf = av.skip(k as int);
        proof {
            assert(suf[0] == av[k as int]);
            assert(av[k as int] == attrs@[k as int]@);
            assert(suf.drop_first() =~= av.skip(k as int + 1));
        }
        if !is_tag_attr_x(&attrs[k]) {
            let a = copy_attr(&attrs[k]);
            proof {
                assert(strip_tag(suf) == seq![av[k as int]] + strip_tag(av.skip(k as int + 1)));
                crate::ast::lemma_attrs_view_push(out@, a);
                assert(attrs_view(out@.push(a)) =~= attrs_view(out@).push(av[k as int]));
                assert(attrs_view(out@) + (seq![av[k as int]] + strip_tag(av.skip(k as int + 1)))
                    =~= attrs_view(out@).push(av[k as int]) + strip_tag(av.skip(k as int + 1)));
            }
            out.push(a);
        } else {
            proof {
                assert(strip_tag(suf) == strip_tag(av.skip(k as int + 1)));
            }
        }
        k = k + 1;
    }
    proof {
        assert(av.skip(k as int).len() == 0);
        assert(strip_tag(av.skip(k as int)) =~= Seq::<AttrV>::empty());
        assert(attrs_view(out@) + Seq::<AttrV>::empty() =~= attrs_view(out@));
    }
    out
}

/// Builds the synthesized linkage attribute.
fn no_mangle_attr_x(sp: Span) -> (r: Attr)
    ensures
        r@ == no_mangle_attr(sp@),
{
    proof {
        reveal_strlit("no_mangle");
    }
    let name = lit("no_mangle");
    let name2 = lit("no_mangle");
    let mut toks: Vec<STok> = Vec::new();
    toks.push(STok { tok: Tok::Punct(35), span: sp });
    toks.push(STok { tok: Tok::Open(Delim::Bracket), span: sp });
    toks.push(STok { tok: Tok::Word(name2), span: sp });
    toks.push(STok { tok: Tok::Close(Delim::Bracket), span: sp });
    let r = Attr { name, span: sp, toks };
    proof {
        assert(r@.toks =~= no_mangle_attr(sp@).toks);
        assert(r@ =~= no_mangle_attr(sp@));
    }
    r
}

/// Builds the trap-handler installation statement.
fn trap_install_x(sp: Span) -> (r: Vec<STok>)
    ensures
        stoks_view(r@) == trap_install_toks(sp@),
{
    proof {
        reveal_strlit("install_sandbox_trap");
    }
    let name = lit("install_sandbox_trap");
    let mut toks: Vec<STok> = Vec::new();
    toks.push(STok { tok: Tok::Word(name), span: sp });
    toks.push(STok { tok: Tok::Open(Delim::Paren), span: sp });
    toks.push(STok { tok: Tok::Close(Delim::Paren), span: sp });
    toks.push(STok { tok: Tok::Punct(59), span: sp });
    proof {
        assert(stoks_view(toks@) =~= trap_install_toks(sp@));
    }
    toks
}

/// Copies a declaration unchanged.
fn copy_decl(d: &Decl) -> (r: Decl)
    ensures
        r@ == d@,
{
    match d {
        Decl::Func(f) => {
            let attrs = copy_attrs(&f.attrs);
            let abi = match &f.abi {
                Some(a) => Some(Abi { conv: slice_to_vec(a.conv.as_slice()), span: a.span }),
                None => None,
            };
            let sig = copy_range(&f.sig, 0, f.sig.len());
            let body = copy_range(&f.body, 0, f.body.len());
            proof {
                assert(stoks_view(f.sig@).subrange(0, f.sig@.len() as int) =~= stoks_view(f.sig@));
                assert(stoks_view(f.body@).subrange(0, f.body@.len() as int) =~= stoks_view(
                    f.body@,
                ));
            }
            let r = Decl::Func(
                FnDecl {
                    attrs,
                    is_pub: f.is_pub,
                    abi,
                    name: slice_to_vec(f.name.as_slice()),
                    name_span: f.name_span,
                    sig,
                    body,
                },
            );
            proof {
                assert(r@ =~= d@);
            }
            r
        },
        Decl::Other(o) => {
            let attrs = copy_attrs(&o.attrs);
            let rest = copy_range(&o.rest, 0, o.rest.len());
            proof {
                assert(stoks_view(o.rest@).subrange(0, o.rest@.len() as int) =~= stoks_view(
                    o.rest@,
                ));
            }
            let r = Decl::Other(OtherDecl { attrs, rest, span: o.span });
            proof {
                assert(r@ =~= d@);
            }
            r
        },
    }
}

/// Copies an attribute list.
fn copy_attrs(attrs: &Vec<Attr>) -> (r: Vec<Attr>)
    ensures
        attrs_view(r@) == attrs_view(attrs@),
{
    let mut out: Vec<Attr> = Vec::new();
    let mut k: usize = 0;
    while k < attrs.len()
        invariant
            k <= attrs@.len(),
            attrs_view(out@) =~= attrs_view(attrs@).take(k as int),
        decreases attrs@.len() - k,
    {
        let a = copy_attr(&attrs[k]);
        proof {
            crate::ast::lemma_attrs_view_push(out@, a);
        }
        out.push(a);
        k = k + 1;
        proof {
            assert(attrs_view(out@) =~= attrs_view(attrs@).take(k as int));
        }
    }
    proof {
        assert(attrs_view(out@) =~= attrs_view(attrs@));
    }
    out
}

/// Prefixes already-extracted declarations and exports onto an outcome.
pub open spec fn ex_prepend(
    pd: Seq<DeclV>,
    pe: Seq<ExportV>,
    r: Result<(Seq<DeclV>, Seq<ExportV>), ValErrV>,
) -> Result<(Seq<DeclV>, Seq<ExportV>), ValErrV> {
    match r {
        Ok(p) => Ok((pd + p.0, pe + p.1)),
        Err(e) => Err(e),
    }
}

/// Extracts and rewrites a whole unit: the same unit with every tagged
/// function in exported form, plus the ordered exports. The first
/// validation failure is reported and nothing is produced.
pub fn extract(u: &Unit) -> (r: Result<(Unit, Vec<Export>), ValErr>)
    ensures
        match r {
            Ok(p) => extract_spec(u@) == Ok::<_, ValErrV>((p.0@.decls, exports_view(p.1@))),
            Err(e) => extract_spec(u@) == Err::<(Seq<DeclV>, Seq<ExportV>), _>(e@),
        },
{
    let ghost dv = decls_view(u.decls@);
    let mut outd: Vec<Decl> = Vec::new();
    let mut oute: Vec<Export> = Vec::new();
    let mut k: usize = 0;
    proof {
        assert(decls_view(outd@) =~= Seq::<DeclV>::empty());
        assert(exports_view(oute@) =~= Seq::<ExportV>::empty());
        match extract_from(dv, 0) {
            Ok(p) => {
                assert(Seq::<DeclV>::empty() + p.0 =~= p.0);
                assert(Seq::<ExportV>::empty() + p.1 =~= p.1);
            },
            Err(_) => {},
        }
    }
    while k < u.decls.len()
        invariant
            k <= u.decls@.len(),
            dv == decls_view(u.decls@),
            dv.len() == u.decls@.len(),
            extract_from(dv, 0) == ex_prepend(
                decls_view(outd@),
                exports_view(oute@),
                extract_from(dv, k as int),
            ),
        decreases u.decls@.len() - k,
    {
        proof {
            assert(dv[k as int] == u.decls@[k as int]@);
        }
        let d = &u.decls[k];
        match d {
            Decl::Other(o) => {
                if has_tag_x(&o.attrs) {
                    return Err(ValErr { span: o.span, kind: ValErrKind::ShapeError });
                }
                let nd = copy_decl(d);
                let ghost pd = decls_view(outd@);
                let ghost pe = exports_view(oute@);
                proof {
                    lemma_step(dv, k as int, pd, pe, nd@, Seq::empty());
                    crate::ast::lemma_decls_view_push(outd@, nd);
                    assert(pe + Seq::<ExportV>::empty() =~= pe);
                }
                outd.push(nd);
            },
            Decl::Func(f) => {
                if !has_tag_x(&f.attrs) {
                    let nd = copy_decl(d);
                    let ghost pd = decls_view(outd@);
                    let ghost pe = exports_view(oute@);
                    proof {
                        lemma_step(dv, k as int, pd, pe, nd@, Seq::empty());
                        crate::ast::lemma_decls_view_push(outd@, nd);
                        assert(pe + Seq::<ExportV>::empty() =~= pe);
                    }
                    outd.push(nd);
                } else {
                    if !f.is_pub {
                        return Err(ValErr { span: f.name_span, kind: ValErrKind::VisibilityError });
                    }
                    match &f.abi {
                        Some(a) => {
                            return Err(
                                ValErr { span: a.span, kind: ValErrKind::ConflictingAbiError },
                            );
                        },
                        None => {},
                    }
                    let remaining = strip_tag_x(&f.attrs);
                    let sp = f.name_span;
                    let mut attrs: Vec<Attr> = Vec::new();
                    attrs.push(no_mangle_attr_x(sp));
                    let sig = copy_range(&f.sig, 0, f.sig.len());
                    let mut body = trap_install_x(sp);
                    let orig_body = copy_range(&f.body, 0, f.body.len());
                    append_stoks(&mut body, &orig_body);
                    let nf = FnDecl {
                        attrs,
                        is_pub: true,
                        abi: Some(Abi { conv: lit_c(), span: sp }),
                        name: slice_to_vec(f.name.as_slice()),
                        name_span: sp,
                        sig,
                        body,
                    };
                    let ex = Export {
                        name: slice_to_vec(f.name.as_slice()),
                        name_span: sp,
                        attrs: remaining,
                    };
                    proof {
                        let fv = u.decls@[k as int]@->Func_0;
                        assert(stoks_view(f.sig@).subrange(0, f.sig@.len() as int) =~= stoks_view(
                            f.sig@,
                        ));
                        assert(stoks_view(f.body@).subrange(0, f.body@.len() as int) =~=
                            stoks_view(f.body@));
                        assert(attrs_view(nf.attrs@) =~= seq![no_mangle_attr(sp@)]);
                        assert(nf@ =~= rewrite_fn(fv));
                        assert(ex@ =~= ExportV {
                            name: fv.name,
                            name_span: fv.name_span,
                            attrs: strip_tag(fv.attrs),
                        });
                        assert(seq![ex@] =~= seq![
                            ExportV {
                                name: fv.name,
                                name_span: fv.name_span,
                                attrs: strip_tag(fv.attrs),
                            },
                        ]);
                        lemma_step(
                            dv,
                            k as int,
                            decls_view(outd@),
                            exports_view(oute@),
                            Decl::Func(nf)@,
                            seq![ex@],
                        );
                    }
                    let ghost pd = decls_view(outd@);
                    let ghost pe = exports_view(oute@);
                    let ghost exg = ex@;
                    let nd = Decl::Func(nf);
                    proof {
                        crate::ast::lemma_decls_view_push(outd@, nd);
                        lemma_exports_view_push(oute@, ex);
                        assert(pe + seq![exg] =~= pe.push(exg));
                    }
                    outd.push(nd);
                    oute.push(ex);
                }
            },
        }
        k = k + 1;
    }
    proof {
        assert(extract_from(dv, k as int) == Ok::<(Seq<DeclV>, Seq<ExportV>), ValErrV>(
            (Seq::empty(), Seq::empty()),
        ));
        assert(decls_view(outd@) + Seq::<DeclV>::empty() =~= decls_view(outd@));
        assert(exports_view(oute@) + Seq::<ExportV>::empty() =~= exports_view(oute@));
    }
    Ok((Unit { decls: outd }, oute))
}

/// The forced calling convention as a byte vector.
fn lit_c() -> (r: Vec<u8>)
    ensures
        r@ == abi_c(),
{
    proof {
        reveal_strlit("C");
    }
    lit("C")
}

proof fn lemma_step(
    dv: Seq<DeclV>,
    k: int,
    pd: Seq<DeclV>,
    pe: Seq<ExportV>,
    nd: DeclV,
    ne: Seq<ExportV>,
)
    requires
        0 <= k < dv.len(),
        extract_decl(dv[k]) == Ok::<_, ValErrV>((nd, ne)),
    ensures
        ex_prepend(pd, pe, extract_from(dv, k)) == ex_prepend(
            pd.push(nd),
            pe + ne,
            extract_from(dv, k + 1),
        ),
{
    match extract_from(dv, k + 1) {
        Ok(p) => {
            assert(pd + (seq![nd] + p.0) =~= pd.push(nd) + p.0);
            assert(pe + (ne + p.1) =~= (pe + ne) + p.1);
        },
        Err(_) => {},
    }
}

} // verus!
