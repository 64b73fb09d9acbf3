//! The executable parser: builds a `Unit` from the lexer's tokens, agreeing
//! exactly with the specification parser in `ast`.
use vstd::prelude::*;
use vstd::slice::slice_to_vec;
use crate::text::{bytes_of, lit};
use crate::tok::{Delim, Span, STok, STokV, Tok, TokV, copy_range, stoks_view};
use crate::ast::{
    Abi, AbiV, Attr, AttrV, Decl, DeclV, FnDecl, FnDeclV, OtherDecl, OtherDeclV, ParseErr,
    ParseErrKind, ParseErrV, Unit, attr_name_in, attrs_view, decls_view, find_body,
    find_other_end, is_word_tok, lemma_find_body_bounds, lemma_find_other_end_bounds,
    lemma_parse_decl_bounds, lemma_scan_group_bounds, parse_attrs, parse_decl, parse_unit_from,
    scan_group,
};

verus! {

/// Whether two byte vectors hold the same bytes.
pub fn eq_bytes(a: &Vec<u8>, b: &Vec<u8>) -> (r: bool)
    ensures
        r == (a@ == b@),
{
    if a.len() != b.len() {
        proof {
            assert(a@ != b@);
        }
        return false;
    }
    let mut k: usize = 0;
    while k < a.len()
        invariant
            k <= a@.len(),
            a@.len() == b@.len(),
            forall|m: int| 0 <= m < k ==> a@[m] == b@[m],
        decreases a@.len() - k,
    {
        if a[k] != b[k] {
            return false;
        }
        k = k + 1;
    }
    proof {
        assert(a@ =~= b@);
    }
    true
}

/// Whether the token is the given keyword.
fn is_word(t: &Tok, s: &str) -> (r: bool)
    requires
        s.is_ascii(),
    ensures
        r == is_word_tok(t@, bytes_of(s@)),
{
    match t {
        Tok::Word(w) => {
            let l = lit(s);
            eq_bytes(w, &l)
        },
        _ => false,
    }
}

/// Scans from `i` with one open group `d` until it closes; the result is
/// the index just past the matching close.
fn scan_group_x(ts: &Vec<STok>, d: Delim, i: usize) -> (r: Option<usize>)
    requires
        i <= ts@.len(),
    ensures
        match r {
            Some(j) => scan_group(stoks_view(ts@), seq![d], i as int) == Some(j as int) && i <= j
                <= ts@.len(),
            None => scan_group(stoks_view(ts@), seq![d], i as int) is None,
        },
{
    let ghost sv = stoks_view(ts@);
    let mut stack: Vec<Delim> = Vec::new();
    stack.push(d);
    let mut j = i;
    proof {
        assert(stack@ =~= seq![d]);
    }
    while stack.len() > 0
        invariant
            i <= j <= ts@.len(),
            sv == stoks_view(ts@),
            sv.len() == ts@.len(),
            scan_group(sv, seq![d], i as int) == scan_group(sv, stack@, j as int),
        decreases ts@.len() - j, stack@.len(),
    {
        if j >= ts.len() {
            proof {
                assert(scan_group(sv, stack@, j as int) is None);
            }
            return None;
        }
        proof {
            assert(sv[j as int] == ts@[j as int]@);
        }
        match &ts[j].tok {
            Tok::Open(d2) => {
                stack.push(*d2);
            },
            Tok::Close(d2) => {
                let top = stack[stack.len() - 1];
                if top == *d2 {
                    let ghost pre = stack@;
                    stack.pop();
                    proof {
                        assert(stack@ =~= pre.drop_last());
                        assert(pre.last() == top);
                    }
                } else {
                    proof {
                        assert(scan_group(sv, stack@, j as int) is None);
                    }
                    return None;
                }
            },
            _ => {},
        }
        j = j + 1;
    }
    proof {
        assert(scan_group(sv, stack@, j as int) == Some(j as int));
    }
    Some(j)
}

/// Prefixes already-parsed attributes onto a `parse_attrs` outcome.
pub open spec fn attrs_prepend(
    pre: Seq<AttrV>,
    r: Result<(Seq<AttrV>, int), ParseErrV>,
) -> Result<(Seq<AttrV>, int), ParseErrV> {
    match r {
        Ok(p) => Ok((pre + p.0, p.1)),
        Err(e) => Err(e),
    }
}

/// Reads leading `#[...]` attributes; yields them and the index after.
fn parse_attrs_x(ts: &Vec<STok>, i: usize) -> (r: Result<(Vec<Attr>, usize), ParseErr>)
    requires
        i <= ts@.len(),
    ensures
        match r {
            Ok(p) => parse_attrs(stoks_view(ts@), i as int) == Ok::<_, ParseErrV>(
                (attrs_view(p.0@), p.1 as int),
            ) && i <= p.1 <= ts@.len(),
            Err(e) => parse_attrs(stoks_view(ts@), i as int) == Err::<(Seq<AttrV>, int), _>(e@),
        },
{
    let ghost sv = stoks_view(ts@);
    let mut out: Vec<Attr> = Vec::new();
    let mut cur = i;
    proof {
        assert(attrs_view(out@) =~= Seq::<AttrV>::empty());
    }
    loop
        invariant
            i <= cur <= ts@.len(),
            sv == stoks_view(ts@),
            sv.len() == ts@.len(),
            parse_attrs(sv, i as int) == attrs_prepend(
                attrs_view(out@),
                parse_attrs(sv, cur as int),
            ),
        decreases ts@.len() - cur,
    {
        proof {
            if cur < ts@.len() {
                assert(sv[cur as int] == ts@[cur as int]@);
            }
        }
        let at_hash = if cur >= ts.len() {
            false
        } else {
            match &ts[cur].tok {
                Tok::Punct(p) => *p == 35,
                _ => false,
            }
        };
        if !at_hash {
            proof {
                assert(parse_attrs(sv, cur as int) == Ok::<_, ParseErrV>(
                    (Seq::<AttrV>::empty(), cur as int),
                ));
                assert(attrs_view(out@) + Seq::<AttrV>::empty() =~= attrs_view(out@));
            }
            return Ok((out, cur));
        }
        proof {
            if cur + 1 < ts@.len() {
                assert(sv[cur as int + 1] == ts@[cur as int + 1]@);
            }
        }
        let bracket_next = if cur + 1 >= ts.len() {
            false
        } else {
            match &ts[cur + 1].tok {
                Tok::Open(d) => *d == Delim::Bracket,
                _ => false,
            }
        };
        if !bracket_next {
            return Err(ParseErr { span: ts[cur].span, kind: ParseErrKind::BadAttr });
        }
        match scan_group_x(ts, Delim::Bracket, cur + 2) {
            None => {
                return Err(ParseErr { span: ts[cur + 1].span, kind: ParseErrKind::UnclosedGroup });
            },
            Some(j) => {
                proof {
                    lemma_scan_group_bounds(sv, seq![Delim::Bracket], cur as int + 2);
                    if cur + 2 < j - 1 {
                        assert(sv[cur as int + 2] == ts@[cur as int + 2]@);
                    }
                }
                let name: Vec<u8> = if cur + 2 < j - 1 {
                    match &ts[cur + 2].tok {
                        Tok::Word(w) => slice_to_vec(w.as_slice()),
                        _ => Vec::new(),
                    }
                } else {
                    Vec::new()
                };
                proof {
                    assert(name@ =~= attr_name_in(sv, cur as int + 2, j as int - 1));
                }
                let toks = copy_range(ts, cur, j);
                let attr = Attr { name, span: ts[cur].span, toks };
                proof {
                    let av = AttrV {
                        name: attr_name_in(sv, cur as int + 2, j as int - 1),
                        span: ts@[cur as int]@.span,
                        toks: sv.subrange(cur as int, j as int),
                    };
                    assert(attr@ =~= av);
                    assert(attrs_view(out@.push(attr)) =~= attrs_view(out@).push(av));
                    // One unfolding of the spec, then re-associate the prefix.
                    match parse_attrs(sv, j as int) {
                        Err(_) => {},
                        Ok(p) => {
                            assert(attrs_view(out@) + (seq![av] + p.0) =~= attrs_view(out@).push(
                                av,
                            ) + p.0);
                        },
                    }
                }
                out.push(attr);
                cur = j;
            },
        }
    }
}

/// Parses one declaration at `i`; yields it and the index after it.
fn parse_decl_x(ts: &Vec<STok>, i: usize) -> (r: Result<(Decl, usize), ParseErr>)
    requires
        i < ts@.len(),
    ensures
        match r {
            Ok(p) => parse_decl(stoks_view(ts@), i as int) == Ok::<_, ParseErrV>(
                (p.0@, p.1 as int),
            ) && i < p.1 <= ts@.len(),
            Err(e) => parse_decl(stoks_view(ts@), i as int) == Err::<(DeclV, int), _>(e@),
        },
{
    let ghost sv = stoks_view(ts@);
    proof {
        lemma_parse_decl_bounds(sv, i as int);
    }
    let (attrs, a) = match parse_attrs_x(ts, i) {
        Ok(p) => p,
        Err(e) => {
            return Err(e);
        },
    };
    if a >= ts.len() {
        proof {
            assert(sv[i as int] == ts@[i as int]@);
        }
        let d = Decl::Other(OtherDecl { attrs, rest: Vec::new(), span: ts[i].span });
        proof {
            assert(stoks_view(Seq::<STok>::empty()) =~= Seq::<STokV>::empty());
            assert(d@ =~= DeclV::Other(
                OtherDeclV {
                    attrs: attrs_view(attrs@),
                    rest: Seq::empty(),
                    span: sv[i as int].span,
                },
            ));
        }
        return Ok((d, a));
    }
    proof {
        assert(sv[a as int] == ts@[a as int]@);
    }
    proof {
        reveal_strlit("pub");
        reveal_strlit("foreign");
        reveal_strlit("fn");
    }
    let (has_pub, p) = if is_word(&ts[a].tok, "pub") {
        (true, a + 1)
    } else {
        (false, a)
    };
    proof {
        if p < ts@.len() {
            assert(sv[p as int] == ts@[p as int]@);
        }
        if p + 1 < ts@.len() {
            assert(sv[p as int + 1] == ts@[p as int + 1]@);
        }
    }
    let at_foreign = p < ts.len() && is_word(&ts[p].tok, "foreign");
    let mut abi: Option<Abi> = None;
    let mut q = p;
    if at_foreign {
        let str_next = if p + 1 >= ts.len() {
            false
        } else {
            match &ts[p + 1].tok {
                Tok::Str(_) => true,
                _ => false,
            }
        };
        if !str_next {
            return Err(ParseErr { span: ts[p].span, kind: ParseErrKind::AbiForm });
        }
        let conv = match &ts[p + 1].tok {
            Tok::Str(c) => slice_to_vec(c.as_slice()),
            _ => Vec::new(),
        };
        abi = Some(Abi { conv, span: ts[p].span });
        q = p + 2;
    }
    proof {
        if q < ts@.len() {
            assert(sv[q as int] == ts@[q as int]@);
        }
        if q + 1 < ts@.len() {
            assert(sv[q as int + 1] == ts@[q as int + 1]@);
        }
    }
    let at_fn = q < ts.len() && is_word(&ts[q].tok, "fn");
    if at_fn {
        let word_next = if q + 1 >= ts.len() {
            false
        } else {
            match &ts[q + 1].tok {
                Tok::Word(_) => true,
                _ => false,
            }
        };
        if !word_next {
            return Err(ParseErr { span: ts[q].span, kind: ParseErrKind::FnForm });
        }
        let name = match &ts[q + 1].tok {
            Tok::Word(w) => slice_to_vec(w.as_slice()),
            _ => Vec::new(),
        };
        let sp = ts[q + 1].span;
        let b = match find_body_x(ts, q + 2, sp) {
            Ok(b) => b,
            Err(e) => {
                return Err(e);
            },
        };
        match scan_group_x(ts, Delim::Brace, b + 1) {
            None => {
                return Err(ParseErr { span: ts[b].span, kind: ParseErrKind::UnclosedGroup });
            },
            Some(j) => {
                proof {
                    lemma_scan_group_bounds(sv, seq![Delim::Brace], b as int + 1);
                    assert(sv[b as int] == ts@[b as int]@);
                }
                let sig = copy_range(ts, q + 2, b);
                let body = copy_range(ts, b + 1, j - 1);
                let f = FnDecl { attrs, is_pub: has_pub, abi, name, name_span: sp, sig, body };
                proof {
                    let fv = FnDeclV {
                        attrs: attrs_view(f.attrs@),
                        is_pub: has_pub,
                        abi: match &f.abi {
                            Some(x) => Some(x@),
                            None => None,
                        },
                        name: sv[q as int + 1].tok->Word_0,
                        name_span: sv[q as int + 1].span,
                        sig: sv.subrange(q as int + 2, b as int),
                        body: sv.subrange(b as int + 1, j as int - 1),
                    };
                    assert(f@ =~= fv);
                    match &f.abi {
                        Some(x) => {
                            assert(x@ =~= AbiV {
                                conv: sv[p as int + 1].tok->Str_0,
                                span: sv[p as int].span,
                            });
                        },
                        None => {},
                    }
                }
                return Ok((Decl::Func(f), j));
            },
        }
    }
    // Not a function: an opaque declaration.
    match find_other_end_x(ts, a) {
        Err(e) => Err(e),
        Ok(j) => {
            proof {
                lemma_find_other_end_bounds(sv, a as int);
                assert(sv[i as int] == ts@[i as int]@);
            }
            let rest = copy_range(ts, a, j);
            let d = Decl::Other(OtherDecl { attrs, rest, span: ts[i].span });
            proof {
                assert(d@ =~= DeclV::Other(
                    OtherDeclV {
                        attrs: attrs_view(attrs@),
                        rest: sv.subrange(a as int, j as int),
                        span: sv[i as int].span,
                    },
                ));
            }
            Ok((d, j))
        },
    }
}

/// Finds the body's opening brace after a function's name.
fn find_body_x(ts: &Vec<STok>, i: usize, sp: Span) -> (r: Result<usize, ParseErr>)
    requires
        i <= ts@.len(),
    ensures
        match r {
            Ok(j) => find_body(stoks_view(ts@), i as int, sp@) == Ok::<_, ParseErrV>(j as int) && i
                <= j < ts@.len(),
            Err(e) => find_body(stoks_view(ts@), i as int, sp@) == Err::<int, _>(e@),
        },
{
    let ghost sv = stoks_view(ts@);
    let mut cur = i;
    loop
        invariant
            i <= cur <= ts@.len(),
            sv == stoks_view(ts@),
            sv.len() == ts@.len(),
            find_body(sv, i as int, sp@) == find_body(sv, cur as int, sp@),
        decreases ts@.len() - cur,
    {
        if cur >= ts.len() {
            return Err(ParseErr { span: sp, kind: ParseErrKind::FnForm });
        }
        proof {
            assert(sv[cur as int] == ts@[cur as int]@);
        }
        match &ts[cur].tok {
            Tok::Open(d) => {
                if *d == Delim::Brace {
                    proof {
                        lemma_find_body_bounds(sv, i as int, sp@);
                    }
                    return Ok(cur);
                }
                match scan_group_x(ts, *d, cur + 1) {
                    None => {
                        return Err(
                            ParseErr { span: ts[cur].span, kind: ParseErrKind::UnclosedGroup },
                        );
                    },
                    Some(j) => {
                        proof {
                            lemma_scan_group_bounds(sv, seq![*d], cur as int + 1);
                        }
                        cur = j;
                    },
                }
            },
            Tok::Close(_) => {
                return Err(ParseErr { span: ts[cur].span, kind: ParseErrKind::StrayClose });
            },
            _ => {
                cur = cur + 1;
            },
        }
    }
}

/// Finds the index just past the end of an opaque declaration.
fn find_other_end_x(ts: &Vec<STok>, i: usize) -> (r: Result<usize, ParseErr>)
    requires
        i <= ts@.len(),
    ensures
        match r {
            Ok(j) => find_other_end(stoks_view(ts@), i as int) == Ok::<_, ParseErrV>(j as int) && i
                <= j <= ts@.len(),
            Err(e) => find_other_end(stoks_view(ts@), i as int) == Err::<int, _>(e@),
        },
{
    let ghost sv = stoks_view(ts@);
    let mut cur = i;
    loop
        invariant
            i <= cur <= ts@.len(),
            sv == stoks_view(ts@),
            sv.len() == ts@.len(),
            find_other_end(sv, i as int) == find_other_end(sv, cur as int),
        decreases ts@.len() - cur,
    {
        if cur >= ts.len() {
            return Ok(cur);
        }
        proof {
            assert(sv[cur as int] == ts@[cur as int]@);
        }
        match &ts[cur].tok {
            Tok::Punct(pb) => {
                if *pb == 59 {
                    proof {
                        lemma_find_other_end_bounds(sv, i as int);
                    }
                    return Ok(cur + 1);
                }
                cur = cur + 1;
            },
            Tok::Open(d) => {
                match scan_group_x(ts, *d, cur + 1) {
                    None => {
                        return Err(
                            ParseErr { span: ts[cur].span, kind: ParseErrKind::UnclosedGroup },
                        );
                    },
                    Some(j) => {
                        if *d == Delim::Brace {
                            proof {
                                lemma_find_other_end_bounds(sv, i as int);
                            }
                            return Ok(j);
                        }
                        proof {
                            lemma_scan_group_bounds(sv, seq![*d], cur as int + 1);
                        }
                        cur = j;
                    },
                }
            },
            Tok::Close(_) => {
                return Err(ParseErr { span: ts[cur].span, kind: ParseErrKind::StrayClose });
            },
            _ => {
                cur = cur + 1;
            },
        }
    }
}

/// Prefixes already-parsed declarations onto a `parse_unit_from` outcome.
pub open spec fn decls_prepend(
    pre: Seq<DeclV>,
    r: Result<Seq<DeclV>, ParseErrV>,
) -> Result<Seq<DeclV>, ParseErrV> {
    match r {
        Ok(ds) => Ok(pre + ds),
        Err(e) => Err(e),
    }
}

/// Parses a whole token stream as a transformation unit.
pub fn parse_unit(ts: &Vec<STok>) -> (r: Result<Unit, ParseErr>)
    ensures
        match r {
            Ok(u) => parse_unit_from(stoks_view(ts@), 0) == Ok::<_, ParseErrV>(u@.decls),
            Err(e) => parse_unit_from(stoks_view(ts@), 0) == Err::<Seq<DeclV>, _>(e@),
        },
{
    let ghost sv = stoks_view(ts@);
    let mut out: Vec<Decl> = Vec::new();
    let mut cur: usize = 0;
    proof {
        assert(decls_view(out@) =~= Seq::<DeclV>::empty());
        match parse_unit_from(sv, 0) {
            Ok(ds) => {
                assert(Seq::<DeclV>::empty() + ds =~= ds);
            },
            Err(_) => {},
        }
    }
    while cur < ts.len()
        invariant
            cur <= ts@.len(),
            sv == stoks_view(ts@),
            sv.len() == ts@.len(),
            parse_unit_from(sv, 0) == decls_prepend(
                decls_view(out@),
                parse_unit_from(sv, cur as int),
            ),
        decreases ts@.len() - cur,
    {
        match parse_decl_x(ts, cur) {
            Err(e) => {
                return Err(e);
            },
            Ok((d, j)) => {
                proof {
                    let dv = parse_decl(sv, cur as int)->Ok_0.0;
                    assert(d@ == dv);
                    assert(decls_view(out@.push(d)) =~= decls_view(out@).push(dv));
                    match parse_unit_from(sv, j as int) {
                        Ok(ds) => {
                            assert(decls_view(out@) + (seq![dv] + ds) =~= decls_view(out@).push(dv)
                                + ds);
                        },
                        Err(_) => {},
                    }
                }
                out.push(d);
                cur = j;
            },
        }
    }
    proof {
        assert(parse_unit_from(sv, cur as int) == Ok::<Seq<DeclV>, ParseErrV>(Seq::empty()));
        assert(decls_view(out@) + Seq::<DeclV>::empty() =~= decls_view(out@));
    }
    Ok(Unit { decls: out })
}

} // verus!
