//! The stub generator: for each exported transformation, emits one deferred
//! binding that, when later supplied with concrete arguments, forwards a
//! dispatch call — the exported name, the artifact's address and the
//! arguments — to the invocation dispatcher.
//!
//! Each binding has the form
//!
//! ```text
//! <re-emitted annotations>
//! binding <name> { dispatch <name> "<address>" }
//! ```
//!
//! where the address is either the artifact's file path or its bytes
//! base64-encoded, as a string literal, selected by the embedding mode.
use vstd::prelude::*;
use crate::text::{bytes_of, lit, push_bytes};
use crate::tok::{append_stoks, render, render_toks, stoks_view, toks_of, STok, STokV};
use crate::ast::{Attr, AttrV, attrs_view};
use crate::emit::attrs_toks_from;
use crate::extract::{Export, ExportV, exports_view};

verus! {

/// How a stub references the compiled artifact.
#[derive(Debug)]
pub enum ArtifactRef {
    /// By the path of the artifact file.
    PathRef(Vec<u8>),
    /// By the artifact's bytes, embedded base64-encoded.
    Embedded(Vec<u8>),
}

pub enum ArtifactRefV {
    PathRef(Seq<u8>),
    Embedded(Seq<u8>),
}

impl View for ArtifactRef {
    type V = ArtifactRefV;

    open spec fn view(&self) -> ArtifactRefV {
        match self {
            ArtifactRef::PathRef(p) => ArtifactRefV::PathRef(p@),
            ArtifactRef::Embedded(b) => ArtifactRefV::Embedded(b@),
        }
    }
}

/// What base64::encode returns for the given bytes; the result depends on
/// the bytes alone.
pub uninterp spec fn base64_of(b: Seq<u8>) -> Seq<u8>;

/// A byte of the standard base64 alphabet, or its padding byte.
pub open spec fn is_base64_byte(c: u8) -> bool {
    (65 <= c && c <= 90) || (97 <= c && c <= 122) || (48 <= c && c <= 57) || c == 43 || c == 47
        || c == 61
}

/// Relies on base64::encode: the standard alphabet with `=` padding, so the
/// output length is `4 * ceil(n / 3)` and every output byte is from that
/// alphabet; the result is a function of the input bytes alone.
#[verifier::external_body]
fn b64_encode(b: &Vec<u8>) -> (r: Vec<u8>)
    requires
        b@.len() <= usize::MAX / 4,
    ensures
        r@ == base64_of(b@),
        r@.len() == 4 * ((b@.len() + 2) / 3),
        forall|i: int| 0 <= i < r@.len() ==> is_base64_byte(#[trigger] r@[i]),
{
    base64::encode(b).into_bytes()
}

/// The string-literal text that addresses the artifact inside a stub.
pub open spec fn addr_lit(a: ArtifactRefV) -> Seq<u8> {
    match a {
        ArtifactRefV::PathRef(p) => p,
        ArtifactRefV::Embedded(b) => base64_of(b),
    }
}

/// The re-emitted annotation text before a binding: the attributes' tokens,
/// then a line break; empty when there are none.
pub open spec fn attrs_part(attrs: Seq<AttrV>) -> Seq<u8> {
    if attrs.len() == 0 {
        Seq::empty()
    } else {
        render_toks(toks_of(attrs_toks_from(attrs, 0))) + seq![10u8]
    }
}

/// One deferred binding.
pub open spec fn stub_line(e: ExportV, addr: Seq<u8>) -> Seq<u8> {
    attrs_part(e.attrs) + bytes_of("binding "@) + e.name + bytes_of(" { dispatch "@) + e.name
        + bytes_of(" \""@) + addr + bytes_of("\" }\n"@)
}

/// The whole stub text: one binding per export, in export order.
pub open spec fn stub_text_from(es: Seq<ExportV>, addr: Seq<u8>, i: int) -> Seq<u8>
    decreases es.len() - i,
{
    if i < 0 || i >= es.len() {
        Seq::empty()
    } else {
        stub_line(es[i], addr) + stub_text_from(es, addr, i + 1)
    }
}

pub open spec fn stub_text(es: Seq<ExportV>, a: ArtifactRefV) -> Seq<u8> {
    stub_text_from(es, addr_lit(a), 0)
}

/// Appends one binding for the export.
fn push_stub_line(out: &mut Vec<u8>, e: &Export, addr: &Vec<u8>)
    ensures
        final(out)@ == old(out)@ + stub_line(e@, addr@),
{
    proof {
        reveal_strlit("binding ");
        reveal_strlit(" { dispatch ");
        reveal_strlit(" \"");
        reveal_strlit("\" }\n");
    }
    if e.attrs.len() > 0 {
        let toks = attrs_to_toks(&e.attrs);
        let at = render(&toks);
        push_bytes(out, &at);
        out.push(10);
    }
    let k1 = lit("binding ");
    push_bytes(out, &k1);
    push_bytes(out, &e.name);
    let k2 = lit(" { dispatch ");
    push_bytes(out, &k2);
    push_bytes(out, &e.name);
    let k3 = lit(" \"");
    push_bytes(out, &k3);
    push_bytes(out, addr);
    let k4 = lit("\" }\n");
    push_bytes(out, &k4);
    proof {
        if e.attrs@.len() == 0 {
            assert(attrs_part(e@.attrs) =~= Seq::<u8>::empty());
        }
        assert(out@ =~= old(out)@ + stub_line(e@, addr@));
    }
}

/// The token run of an export's annotations.
fn attrs_to_toks(attrs: &Vec<Attr>) -> (r: Vec<STok>)
    ensures
        stoks_view(r@) == attrs_toks_from(attrs_view(attrs@), 0),
{
    let ghost av = attrs_view(attrs@);
    let mut out: Vec<STok> = Vec::new();
    let mut k: usize = 0;
    proof {
        assert(stoks_view(out@) =~= Seq::<STokV>::empty());
    }
    while k < attrs.len()
        invariant
            k <= attrs@.len(),
            av == attrs_view(attrs@),
            av.len() == attrs@.len(),
            stoks_view(out@) + attrs_toks_from(av, k as int) =~= attrs_toks_from(av, 0),
        decreases attrs@.len() - k,
    {
        proof {
            assert(av[k as int] == attrs@[k as int]@);
        }
        append_stoks(&mut out, &attrs[k].toks);
        k = k + 1;
        proof {
            assert(attrs_toks_from(av, k as int - 1) == av[k as int - 1].toks + attrs_toks_from(
                av,
                k as int,
            ));
            assert(stoks_view(out@) + attrs_toks_from(av, k as int) =~= attrs_toks_from(av, 0));
        }
    }
    proof {
        assert(attrs_toks_from(av, k as int) =~= Seq::<STokV>::empty());
        assert(stoks_view(out@) =~= attrs_toks_from(av, 0));
    }
    out
}

/// Generates the stub text for the exports, in export order, each binding
/// referencing the artifact by the same address literal.
pub fn stub_defs(exports: &Vec<Export>, artifact: &ArtifactRef) -> (r: Vec<u8>)
    requires
        artifact@ matches ArtifactRefV::Embedded(b) ==> b.len() <= usize::MAX / 4,
    ensures
        r@ == stub_text(exports_view(exports@), artifact@),
{
    let addr: Vec<u8> = match artifact {
        ArtifactRef::PathRef(p) => vstd::slice::slice_to_vec(p.as_slice()),
        ArtifactRef::Embedded(b) => b64_encode(b),
    };
    proof {
        assert(addr@ == addr_lit(artifact@));
    }
    let ghost ev = exports_view(exports@);
    let ghost a = addr@;
    let mut out: Vec<u8> = Vec::new();
    let mut k: usize = 0;
    while k < exports.len()
        invariant
            k <= exports@.len(),
            ev == exports_view(exports@),
            ev.len() == exports@.len(),
            a == addr@,
            out@ + stub_text_from(ev, a, k as int) =~= stub_text_from(ev, a, 0),
        decreases exports@.len() - k,
    {
        proof {
            assert(ev[k as int] == exports@[k as int]@);
        }
        push_stub_line(&mut out, &exports[k], &addr);
        k = k + 1;
        proof {
            assert(stub_text_from(ev, a, k as int - 1) == stub_line(ev[k as int - 1], a)
                + stub_text_from(ev, a, k as int));
            assert(out@ + stub_text_from(ev, a, k as int) =~= stub_text_from(ev, a, 0));
        }
    }
    proof {
        assert(stub_text_from(ev, a, k as int) =~= Seq::<u8>::empty());
        assert(out@ =~= stub_text_from(ev, a, 0));
    }
    out
}

} // verus!
