//! Serializes a (possibly rewritten) unit back to tokens and text, for
//! handing to the external toolchain.
use vstd::prelude::*;
use vstd::slice::slice_to_vec;
use crate::text::lit;
use crate::tok::{
    append_stoks, Delim, STok, STokV, Tok, TokV, lemma_stoks_view_push, render, render_toks,
    stoks_view, toks_of,
};
use crate::ast::{Attr, AttrV, Decl, DeclV, Unit, UnitV, attrs_view, decls_view, kw_fn, kw_foreign, kw_pub};

verus! {

/// The tokens of an attribute list from index `i` on.
pub open spec fn attrs_toks_from(attrs: Seq<AttrV>, i: int) -> Seq<STokV>
    decreases attrs.len() - i,
{
    if i < 0 || i >= attrs.len() {
        Seq::empty()
    } else {
        attrs[i].toks + attrs_toks_from(attrs, i + 1)
    }
}

/// The token run of one declaration, as the renderer emits it. Synthesized
/// keyword tokens carry the nearest meaningful span.
pub open spec fn decl_toks(d: DeclV) -> Seq<STokV> {
    match d {
        DeclV::Func(f) => attrs_toks_from(f.attrs, 0) + (if f.is_pub {
            seq![STokV { tok: TokV::Word(kw_pub()), span: f.name_span }]
        } else {
            Seq::empty()
        }) + (match f.abi {
            Some(a) => seq![
                STokV { tok: TokV::Word(kw_foreign()), span: a.span },
                STokV { tok: TokV::Str(a.conv), span: a.span },
            ],
            None => Seq::empty(),
        }) + seq![
            STokV { tok: TokV::Word(kw_fn()), span: f.name_span },
            STokV { tok: TokV::Word(f.name), span: f.name_span },
        ] + f.sig + seq![STokV { tok: TokV::Open(Delim::Brace), span: f.name_span }] + f.body
            + seq![STokV { tok: TokV::Close(Delim::Brace), span: f.name_span }],
        DeclV::Other(o) => attrs_toks_from(o.attrs, 0) + o.rest,
    }
}

/// The token run of a unit's declarations from index `i` on.
pub open spec fn unit_toks(ds: Seq<DeclV>, i: int) -> Seq<STokV>
    decreases ds.len() - i,
{
    if i < 0 || i >= ds.len() {
        Seq::empty()
    } else {
        decl_toks(ds[i]) + unit_toks(ds, i + 1)
    }
}

/// The canonical source text of a unit.
pub open spec fn unit_source(u: UnitV) -> Seq<u8> {
    render_toks(toks_of(unit_toks(u.decls, 0)))
}

/// Appends the tokens of all attributes.
fn append_attrs_toks(dst: &mut Vec<STok>, attrs: &Vec<Attr>)
    ensures
        stoks_view(final(dst)@) == stoks_view(old(dst)@) + attrs_toks_from(
            attrs_view(attrs@),
            0,
        ),
{
    let ghost av = attrs_view(attrs@);
    let mut k: usize = 0;
    while k < attrs.len()
        invariant
            k <= attrs@.len(),
            av == attrs_view(attrs@),
            av.len() == attrs@.len(),
            stoks_view(dst@) + attrs_toks_from(av, k as int) =~= stoks_view(old(dst)@)
                + attrs_toks_from(av, 0),
        decreases attrs@.len() - k,
    {
        proof {
            assert(av[k as int] == attrs@[k as int]@);
        }
        append_stoks(dst, &attrs[k].toks);
        k = k + 1;
        proof {
            assert(attrs_toks_from(av, k as int - 1) == av[k as int - 1].toks + attrs_toks_from(
                av,
                k as int,
            ));
            assert(stoks_view(dst@) + attrs_toks_from(av, k as int) =~= stoks_view(old(dst)@)
                + attrs_toks_from(av, 0));
        }
    }
    proof {
        assert(attrs_toks_from(av, k as int) =~= Seq::<STokV>::empty());
        assert(stoks_view(dst@) =~= stoks_view(old(dst)@) + attrs_toks_from(av, 0));
    }
}

/// Appends the token run of one declaration.
fn append_decl_toks(dst: &mut Vec<STok>, d: &Decl)
    ensures
        stoks_view(final(dst)@) == stoks_view(old(dst)@) + decl_toks(d@),
{
    proof {
        reveal_strlit("pub");
        reveal_strlit("foreign");
        reveal_strlit("fn");
    }
    match d {
        Decl::Func(f) => {
            append_attrs_toks(dst, &f.attrs);
            if f.is_pub {
                let t = STok { tok: Tok::Word(lit("pub")), span: f.name_span };
                proof {
                    lemma_stoks_view_push(dst@, t);
                }
                dst.push(t);
            }
            match &f.abi {
                Some(a) => {
                    let t1 = STok { tok: Tok::Word(lit("foreign")), span: a.span };
                    proof {
                        lemma_stoks_view_push(dst@, t1);
                    }
                    dst.push(t1);
                    let t2 = STok { tok: Tok::Str(slice_to_vec(a.conv.as_slice())), span: a.span };
                    proof {
                        lemma_stoks_view_push(dst@, t2);
                    }
                    dst.push(t2);
                },
                None => {},
            }
            let t3 = STok { tok: Tok::Word(lit("fn")), span: f.name_span };
            proof {
                lemma_stoks_view_push(dst@, t3);
            }
            dst.push(t3);
            let t4 = STok { tok: Tok::Word(slice_to_vec(f.name.as_slice())), span: f.name_span };
            proof {
                lemma_stoks_view_push(dst@, t4);
            }
            dst.push(t4);
            append_stoks(dst, &f.sig);
            let t5 = STok { tok: Tok::Open(Delim::Brace), span: f.name_span };
            proof {
                lemma_stoks_view_push(dst@, t5);
            }
            dst.push(t5);
            append_stoks(dst, &f.body);
            let t6 = STok { tok: Tok::Close(Delim::Brace), span: f.name_span };
            proof {
                lemma_stoks_view_push(dst@, t6);
            }
            dst.push(t6);
            proof {
                assert(stoks_view(dst@) =~= stoks_view(old(dst)@) + decl_toks(d@));
            }
        },
        Decl::Other(o) => {
            append_attrs_toks(dst, &o.attrs);
            append_stoks(dst, &o.rest);
            proof {
                assert(stoks_view(dst@) =~= stoks_view(old(dst)@) + decl_toks(d@));
            }
        },
    }
}

/// The full token run of a unit.
pub fn unit_to_toks(u: &Unit) -> (r: Vec<STok>)
    ensures
        stoks_view(r@) == unit_toks(decls_view(u.decls@), 0),
{
    let ghost dv = decls_view(u.decls@);
    let mut out: Vec<STok> = Vec::new();
    let mut k: usize = 0;
    proof {
        assert(stoks_view(out@) =~= Seq::<STokV>::empty());
    }
    while k < u.decls.len()
        invariant
            k <= u.decls@.len(),
            dv == decls_view(u.decls@),
            dv.len() == u.decls@.len(),
            stoks_view(out@) + unit_toks(dv, k as int) =~= unit_toks(dv, 0),
        decreases u.decls@.len() - k,
    {
        proof {
            assert(dv[k as int] == u.decls@[k as int]@);
        }
        append_decl_toks(&mut out, &u.decls[k]);
        k = k + 1;
        proof {
            assert(unit_toks(dv, k as int - 1) == decl_toks(dv[k as int - 1]) + unit_toks(
                dv,
                k as int,
            ));
            assert(stoks_view(out@) + unit_toks(dv, k as int) =~= unit_toks(dv, 0));
        }
    }
    proof {
        assert(unit_toks(dv, k as int) =~= Seq::<STokV>::empty());
        assert(stoks_view(out@) =~= unit_toks(dv, 0));
    }
    out
}

/// Renders a unit as source text.
pub fn render_unit(u: &Unit) -> (r: Vec<u8>)
    ensures
        r@ == unit_source(u@),
{
    let toks = unit_to_toks(u);
    render(&toks)
}

} // verus!
