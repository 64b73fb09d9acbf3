//! The parsed form of a transformation unit: a sequence of top-level
//! declarations, each either a function or an opaque run of tokens, and the
//! parser that builds it from the lexer's tokens.
//!
//! The declaration grammar:
//!
//! ```text
//! unit  ::= decl*
//! decl  ::= attr* fndecl | attr* other
//! attr  ::= '#' '[' token* ']'                 (brackets balanced)
//! fndecl::= 'pub'? ('foreign' string)? 'fn' word sig '{' token* '}'
//! other ::= any tokens up to a top-level ';' or the end of a top-level
//!           brace group (or the end of the unit)
//! ```
//!
//! `sig` is every token between the function's name and the first top-level
//! opening brace, which starts the body.
use vstd::prelude::*;
use crate::tok::{Delim, Span, SpanV, STok, STokV, Tok, TokV, stoks_view};
use crate::text::bytes_of;

verus! {

/// An attribute: `#` `[` ... `]`. `toks` holds the whole run including the
/// delimiters; `name` is the first word inside the brackets (empty if none).
#[derive(Debug)]
pub struct Attr {
    pub name: Vec<u8>,
    pub span: Span,
    pub toks: Vec<STok>,
}

#[verifier::ext_equal]
pub struct AttrV {
    pub name: Seq<u8>,
    pub span: SpanV,
    pub toks: Seq<STokV>,
}

impl View for Attr {
    type V = AttrV;

    open spec fn view(&self) -> AttrV {
        AttrV { name: self.name@, span: self.span@, toks: stoks_view(self.toks@) }
    }
}

pub open spec fn attrs_view(v: Seq<Attr>) -> Seq<AttrV> {
    v.map_values(|a: Attr| a@)
}

pub proof fn lemma_attrs_view_push(v: Seq<Attr>, a: Attr)
    ensures
        attrs_view(v.push(a)) == attrs_view(v).push(a@),
{
    assert forall|i: int| 0 <= i < v.len() + 1 implies attrs_view(v.push(a))[i] == attrs_view(
        v,
    ).push(a@)[i] by {
        if i < v.len() {
            assert(v.push(a)[i] == v[i]);
        } else {
            assert(v.push(a)[i] == a);
        }
    }
    assert(attrs_view(v.push(a)) =~= attrs_view(v).push(a@));
}

/// A declared calling convention: the `foreign` keyword and its string.
#[derive(Debug)]
pub struct Abi {
    pub conv: Vec<u8>,
    pub span: Span,
}

#[verifier::ext_equal]
pub struct AbiV {
    pub conv: Seq<u8>,
    pub span: SpanV,
}

impl View for Abi {
    type V = AbiV;

    open spec fn view(&self) -> AbiV {
        AbiV { conv: self.conv@, span: self.span@ }
    }
}

/// A function declaration.
#[derive(Debug)]
pub struct FnDecl {
    pub attrs: Vec<Attr>,
    pub is_pub: bool,
    pub abi: Option<Abi>,
    pub name: Vec<u8>,
    pub name_span: Span,
    pub sig: Vec<STok>,
    pub body: Vec<STok>,
}

#[verifier::ext_equal]
pub struct FnDeclV {
    pub attrs: Seq<AttrV>,
    pub is_pub: bool,
    pub abi: Option<AbiV>,
    pub name: Seq<u8>,
    pub name_span: SpanV,
    pub sig: Seq<STokV>,
    pub body: Seq<STokV>,
}

impl View for FnDecl {
    type V = FnDeclV;

    open spec fn view(&self) -> FnDeclV {
        FnDeclV {
            attrs: attrs_view(self.attrs@),
            is_pub: self.is_pub,
            abi: match self.abi {
                Some(a) => Some(a@),
                None => None,
            },
            name: self.name@,
            name_span: self.name_span@,
            sig: stoks_view(self.sig@),
            body: stoks_view(self.body@),
        }
    }
}

/// A declaration that is not a function: kept as its raw tokens.
#[derive(Debug)]
pub struct OtherDecl {
    pub attrs: Vec<Attr>,
    pub rest: Vec<STok>,
    pub span: Span,
}

#[verifier::ext_equal]
pub struct OtherDeclV {
    pub attrs: Seq<AttrV>,
    pub rest: Seq<STokV>,
    pub span: SpanV,
}

impl View for OtherDecl {
    type V = OtherDeclV;

    open spec fn view(&self) -> OtherDeclV {
        OtherDeclV { attrs: attrs_view(self.attrs@), rest: stoks_view(self.rest@), span: self.span@ }
    }
}

/// A top-level declaration.
#[derive(Debug)]
pub enum Decl {
    Func(FnDecl),
    Other(OtherDecl),
}

#[verifier::ext_equal]
pub enum DeclV {
    Func(FnDeclV),
    Other(OtherDeclV),
}

impl View for Decl {
    type V = DeclV;

    open spec fn view(&self) -> DeclV {
        match self {
            Decl::Func(f) => DeclV::Func(f@),
            Decl::Other(o) => DeclV::Other(o@),
        }
    }
}

pub open spec fn decls_view(v: Seq<Decl>) -> Seq<DeclV> {
    v.map_values(|d: Decl| d@)
}

pub proof fn lemma_decls_view_push(v: Seq<Decl>, d: Decl)
    ensures
        decls_view(v.push(d)) == decls_view(v).push(d@),
{
    assert forall|i: int| 0 <= i < v.len() + 1 implies decls_view(v.push(d))[i] == decls_view(
        v,
    ).push(d@)[i] by {
        if i < v.len() {
            assert(v.push(d)[i] == v[i]);
        } else {
            assert(v.push(d)[i] == d);
        }
    }
    assert(decls_view(v.push(d)) =~= decls_view(v).push(d@));
}

/// A parsed transformation unit.
#[derive(Debug)]
pub struct Unit {
    pub decls: Vec<Decl>,
}

#[verifier::ext_equal]
pub struct UnitV {
    pub decls: Seq<DeclV>,
}

impl View for Unit {
    type V = UnitV;

    open spec fn view(&self) -> UnitV {
        UnitV { decls: decls_view(self.decls@) }
    }
}

/// Why the token stream failed to parse as a unit.
#[derive(Clone, Copy, PartialEq, Eq, Structural, Debug)]
pub enum ParseErrKind {
    /// An opened group never closes, or closes with the wrong delimiter.
    UnclosedGroup,
    /// A closing delimiter with no matching open at the top level.
    StrayClose,
    /// `#` not followed by a bracket group.
    BadAttr,
    /// `foreign` not followed by a string literal.
    AbiForm,
    /// `fn` not followed by a name, or a function without a body.
    FnForm,
}

/// A parse error at the span of the offending token.
#[derive(Clone, Copy, PartialEq, Eq, Structural, Debug)]
pub struct ParseErr {
    pub span: Span,
    pub kind: ParseErrKind,
}

#[verifier::ext_equal]
pub struct ParseErrV {
    pub span: SpanV,
    pub kind: ParseErrKind,
}

impl View for ParseErr {
    type V = ParseErrV;

    open spec fn view(&self) -> ParseErrV {
        ParseErrV { span: self.span@, kind: self.kind }
    }
}

/// Scans from `i` until the groups on `stack` are closed; yields the index
/// just past the close that empties the stack.
pub open spec fn scan_group(ts: Seq<STokV>, stack: Seq<Delim>, i: int) -> Option<int>
    decreases ts.len() - i,
{
    if stack.len() == 0 {
        Some(i)
    } else if i < 0 || i >= ts.len() {
        None
    } else {
        match ts[i].tok {
            TokV::Open(d) => scan_group(ts, stack.push(d), i + 1),
            TokV::Close(d) => if d == stack.last() {
                scan_group(ts, stack.drop_last(), i + 1)
            } else {
                None
            },
            _ => scan_group(ts, stack, i + 1),
        }
    }
}

pub proof fn lemma_scan_group_bounds(ts: Seq<STokV>, stack: Seq<Delim>, i: int)
    requires
        0 <= i <= ts.len(),
    ensures
        scan_group(ts, stack, i) matches Some(j) ==> i <= j <= ts.len(),
        stack.len() > 0 ==> (scan_group(ts, stack, i) matches Some(j) ==> i + 1 <= j),
    decreases ts.len() - i,
{
    if stack.len() == 0 {
    } else if i >= ts.len() {
    } else {
        match ts[i].tok {
            TokV::Open(d) => lemma_scan_group_bounds(ts, stack.push(d), i + 1),
            TokV::Close(d) => {
                if d == stack.last() {
                    lemma_scan_group_bounds(ts, stack.drop_last(), i + 1);
                }
            },
            _ => lemma_scan_group_bounds(ts, stack, i + 1),
        }
    }
}

/// The name of the attribute whose bracket group spans `(i, j)` exclusive of
/// the delimiters: the first word inside, or empty.
pub open spec fn attr_name_in(ts: Seq<STokV>, i: int, j: int) -> Seq<u8> {
    if i < j && (ts[i].tok matches TokV::Word(w)) {
        ts[i].tok->Word_0
    } else {
        Seq::empty()
    }
}

/// Parses `#[...]` attributes from `i`; yields them with the index after.
pub open spec fn parse_attrs(ts: Seq<STokV>, i: int) -> Result<(Seq<AttrV>, int), ParseErrV>
    decreases ts.len() - i,
    via parse_attrs_dec
{
    if i < 0 || i >= ts.len() || !(ts[i].tok matches TokV::Punct(p) && p == 35) {
        Ok((Seq::empty(), i))
    } else if i + 1 >= ts.len() || !(ts[i + 1].tok matches TokV::Open(d) && d == Delim::Bracket) {
        Err(ParseErrV { span: ts[i].span, kind: ParseErrKind::BadAttr })
    } else {
        match scan_group(ts, seq![Delim::Bracket], i + 2) {
            None => Err(ParseErrV { span: ts[i + 1].span, kind: ParseErrKind::UnclosedGroup }),
            Some(j) => match parse_attrs(ts, j) {
                Err(e) => Err(e),
                Ok((rest, k)) => Ok(
                    (
                        seq![
                            AttrV {
                                name: attr_name_in(ts, i + 2, j - 1),
                                span: ts[i].span,
                                toks: ts.subrange(i, j),
                            },
                        ] + rest,
                        k,
                    ),
                ),
            },
        }
    }
}

#[via_fn]
proof fn parse_attrs_dec(ts: Seq<STokV>, i: int) {
    if !(i < 0 || i >= ts.len() || !(ts[i].tok matches TokV::Punct(p) && p == 35)) {
        if !(i + 1 >= ts.len() || !(ts[i + 1].tok matches TokV::Open(d) && d == Delim::Bracket)) {
            lemma_scan_group_bounds(ts, seq![Delim::Bracket], i + 2);
        }
    }
}

pub proof fn lemma_parse_attrs_bounds(ts: Seq<STokV>, i: int)
    requires
        0 <= i <= ts.len(),
    ensures
        parse_attrs(ts, i) matches Ok(r) ==> i <= r.1 <= ts.len(),
        parse_attrs(ts, i) matches Ok(r) ==> (r.0.len() == 0 ==> r.1 == i),
        parse_attrs(ts, i) matches Ok(r) ==> (r.0.len() > 0 ==> i + 3 <= r.1),
    decreases ts.len() - i,
{
    if !(i < 0 || i >= ts.len() || !(ts[i].tok matches TokV::Punct(p) && p == 35)) {
        if !(i + 1 >= ts.len() || !(ts[i + 1].tok matches TokV::Open(d) && d == Delim::Bracket)) {
            lemma_scan_group_bounds(ts, seq![Delim::Bracket], i + 2);
            match scan_group(ts, seq![Delim::Bracket], i + 2) {
                None => {},
                Some(j) => {
                    lemma_parse_attrs_bounds(ts, j);
                },
            }
        }
    }
}

/// Finds the body's opening brace: the first top-level `{` after the
/// function's name, scanning over balanced groups. `sp` is the name's span,
/// used when the body is missing.
pub open spec fn find_body(ts: Seq<STokV>, i: int, sp: SpanV) -> Result<int, ParseErrV>
    decreases ts.len() - i,
    via find_body_dec
{
    if i < 0 || i >= ts.len() {
        Err(ParseErrV { span: sp, kind: ParseErrKind::FnForm })
    } else {
        match ts[i].tok {
            TokV::Open(d) => if d == Delim::Brace {
                Ok(i)
            } else {
                match scan_group(ts, seq![d], i + 1) {
                    None => Err(ParseErrV { span: ts[i].span, kind: ParseErrKind::UnclosedGroup }),
                    Some(j) => find_body(ts, j, sp),
                }
            },
            TokV::Close(_) => Err(ParseErrV { span: ts[i].span, kind: ParseErrKind::StrayClose }),
            _ => find_body(ts, i + 1, sp),
        }
    }
}

#[via_fn]
proof fn find_body_dec(ts: Seq<STokV>, i: int, sp: SpanV) {
    if 0 <= i < ts.len() {
        match ts[i].tok {
            TokV::Open(d) => {
                if d != Delim::Brace {
                    lemma_scan_group_bounds(ts, seq![d], i + 1);
                }
            },
            _ => {},
        }
    }
}

pub proof fn lemma_find_body_bounds(ts: Seq<STokV>, i: int, sp: SpanV)
    requires
        0 <= i <= ts.len(),
    ensures
        find_body(ts, i, sp) matches Ok(j) ==> i <= j < ts.len(),
    decreases ts.len() - i,
{
    if 0 <= i < ts.len() {
        match ts[i].tok {
            TokV::Open(d) => {
                if d != Delim::Brace {
                    lemma_scan_group_bounds(ts, seq![d], i + 1);
                    match scan_group(ts, seq![d], i + 1) {
                        None => {},
                        Some(j) => lemma_find_body_bounds(ts, j, sp),
                    }
                }
            },
            TokV::Close(_) => {},
            _ => lemma_find_body_bounds(ts, i + 1, sp),
        }
    }
}

/// Finds the index just past the end of an `other` declaration that starts
/// at `i`: past a top-level `;`, past the end of the first top-level brace
/// group, or the end of the tokens.
pub open spec fn find_other_end(ts: Seq<STokV>, i: int) -> Result<int, ParseErrV>
    decreases ts.len() - i,
    via find_other_end_dec
{
    if i < 0 || i >= ts.len() {
        Ok(i)
    } else {
        match ts[i].tok {
            TokV::Punct(p) => if p == 59 {
                Ok(i + 1)
            } else {
                find_other_end(ts, i + 1)
            },
            TokV::Open(d) => if d == Delim::Brace {
                match scan_group(ts, seq![Delim::Brace], i + 1) {
                    None => Err(ParseErrV { span: ts[i].span, kind: ParseErrKind::UnclosedGroup }),
                    Some(j) => Ok(j),
                }
            } else {
                match scan_group(ts, seq![d], i + 1) {
                    None => Err(ParseErrV { span: ts[i].span, kind: ParseErrKind::UnclosedGroup }),
                    Some(j) => find_other_end(ts, j),
                }
            },
            TokV::Close(_) => Err(ParseErrV { span: ts[i].span, kind: ParseErrKind::StrayClose }),
            _ => find_other_end(ts, i + 1),
        }
    }
}

#[via_fn]
proof fn find_other_end_dec(ts: Seq<STokV>, i: int) {
    if 0 <= i < ts.len() {
        match ts[i].tok {
            TokV::Open(d) => {
                if d != Delim::Brace {
                    lemma_scan_group_bounds(ts, seq![d], i + 1);
                }
            },
            _ => {},
        }
    }
}

pub proof fn lemma_find_other_end_bounds(ts: Seq<STokV>, i: int)
    requires
        0 <= i <= ts.len(),
    ensures
        find_other_end(ts, i) matches Ok(j) ==> i <= j <= ts.len(),
        i < ts.len() ==> (find_other_end(ts, i) matches Ok(j) ==> i + 1 <= j),
    decreases ts.len() - i,
{
    if 0 <= i < ts.len() {
        match ts[i].tok {
            TokV::Open(d) => {
                lemma_scan_group_bounds(ts, seq![d], i + 1);
                if d != Delim::Brace {
                    match scan_group(ts, seq![d], i + 1) {
                        None => {},
                        Some(j) => lemma_find_other_end_bounds(ts, j),
                    }
                }
            },
            _ => {
                lemma_find_other_end_bounds(ts, i + 1);
            },
        }
    }
}

/// The keyword spellings the declaration grammar knows.
pub open spec fn kw_pub() -> Seq<u8> {
    bytes_of("pub"@)
}

pub open spec fn kw_foreign() -> Seq<u8> {
    bytes_of("foreign"@)
}

pub open spec fn kw_fn() -> Seq<u8> {
    bytes_of("fn"@)
}

/// Whether a token is the word `w`.
pub open spec fn is_word_tok(t: TokV, w: Seq<u8>) -> bool {
    t matches TokV::Word(x) && x == w
}

/// Parses one declaration starting at `i` (which must hold a token); yields
/// it with the index after it.
pub open spec fn parse_decl(ts: Seq<STokV>, i: int) -> Result<(DeclV, int), ParseErrV> {
    match parse_attrs(ts, i) {
        Err(e) => Err(e),
        Ok((attrs, a)) => {
            if a >= ts.len() {
                Ok((DeclV::Other(OtherDeclV { attrs, rest: Seq::empty(), span: ts[i].span }), a))
            } else {
                let (has_pub, p) = if is_word_tok(ts[a].tok, kw_pub()) {
                    (true, a + 1)
                } else {
                    (false, a)
                };
                if p < ts.len() && is_word_tok(ts[p].tok, kw_foreign()) {
                    if p + 1 < ts.len() && (ts[p + 1].tok matches TokV::Str(_)) {
                        parse_fn_after_head(
                            ts,
                            i,
                            a,
                            attrs,
                            has_pub,
                            Some(AbiV { conv: ts[p + 1].tok->Str_0, span: ts[p].span }),
                            p + 2,
                        )
                    } else {
                        Err(ParseErrV { span: ts[p].span, kind: ParseErrKind::AbiForm })
                    }
                } else {
                    parse_fn_after_head(ts, i, a, attrs, has_pub, None, p)
                }
            }
        },
    }
}

/// Continues `parse_decl` after visibility and calling convention: either a
/// function declaration at `q`, or an `other` declaration from `a` on.
/// `i` is the declaration's first token (for its span); the attributes end
/// at `a`; `q` is where `fn` would stand.
pub open spec fn parse_fn_after_head(
    ts: Seq<STokV>,
    i: int,
    a: int,
    attrs: Seq<AttrV>,
    has_pub: bool,
    abi: Option<AbiV>,
    q: int,
) -> Result<(DeclV, int), ParseErrV> {
    if q < ts.len() && is_word_tok(ts[q].tok, kw_fn()) {
        if q + 1 < ts.len() && (ts[q + 1].tok matches TokV::Word(_)) {
            let sp = ts[q + 1].span;
            match find_body(ts, q + 2, sp) {
                Err(e) => Err(e),
                Ok(b) => match scan_group(ts, seq![Delim::Brace], b + 1) {
                    None => Err(ParseErrV { span: ts[b].span, kind: ParseErrKind::UnclosedGroup }),
                    Some(j) => Ok(
                        (
                            DeclV::Func(
                                FnDeclV {
                                    attrs,
                                    is_pub: has_pub,
                                    abi,
                                    name: ts[q + 1].tok->Word_0,
                                    name_span: sp,
                                    sig: ts.subrange(q + 2, b),
                                    body: ts.subrange(b + 1, j - 1),
                                },
                            ),
                            j,
                        ),
                    ),
                },
            }
        } else {
            Err(ParseErrV { span: ts[q].span, kind: ParseErrKind::FnForm })
        }
    } else {
        // Not a function: an opaque declaration whose raw tokens resume
        // after the attributes; `pub` or `foreign` tokens stay inside `rest`.
        let start = a;
        match find_other_end(ts, start) {
            Err(e) => Err(e),
            Ok(j) => Ok(
                (
                    DeclV::Other(
                        OtherDeclV { attrs, rest: ts.subrange(start, j), span: ts[i].span },
                    ),
                    j,
                ),
            ),
        }
    }
}

/// One declaration consumes at least one token and stays within bounds.
pub proof fn lemma_parse_decl_bounds(ts: Seq<STokV>, i: int)
    requires
        0 <= i < ts.len(),
    ensures
        parse_decl(ts, i) matches Ok(r) ==> i < r.1 <= ts.len(),
{
    lemma_parse_attrs_bounds(ts, i);
    match parse_attrs(ts, i) {
        Err(_) => {},
        Ok((attrs, a)) => {
            if a < ts.len() {
                let (has_pub, p) = if is_word_tok(ts[a].tok, kw_pub()) {
                    (true, a + 1)
                } else {
                    (false, a)
                };
                let q = if p < ts.len() && is_word_tok(ts[p].tok, kw_foreign()) && p + 1 < ts.len()
                    && (ts[p + 1].tok matches TokV::Str(_)) {
                    p + 2
                } else {
                    p
                };
                if q < ts.len() && is_word_tok(ts[q].tok, kw_fn()) && q + 1 < ts.len() && (ts[q
                    + 1].tok matches TokV::Word(_)) {
                    lemma_find_body_bounds(ts, q + 2, ts[q + 1].span);
                    match find_body(ts, q + 2, ts[q + 1].span) {
                        Err(_) => {},
                        Ok(b) => {
                            lemma_scan_group_bounds(ts, seq![Delim::Brace], b + 1);
                        },
                    }
                } else {
                    lemma_find_other_end_bounds(ts, a);
                }
            }
        },
    }
}

/// Parses the whole token stream as a sequence of declarations.
pub open spec fn parse_unit_from(ts: Seq<STokV>, i: int) -> Result<Seq<DeclV>, ParseErrV>
    decreases ts.len() - i,
    via parse_unit_from_dec
{
    if i < 0 || i >= ts.len() {
        Ok(Seq::empty())
    } else {
        match parse_decl(ts, i) {
            Err(e) => Err(e),
            Ok((d, j)) => match parse_unit_from(ts, j) {
                Err(e) => Err(e),
                Ok(ds) => Ok(seq![d] + ds),
            },
        }
    }
}

#[via_fn]
proof fn parse_unit_from_dec(ts: Seq<STokV>, i: int) {
    if 0 <= i < ts.len() {
        lemma_parse_decl_bounds(ts, i);
    }
}

} // verus!
