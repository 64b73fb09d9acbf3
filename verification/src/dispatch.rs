//! The invocation dispatcher's deterministic half: decoding a dispatch
//! call from its flat token encoding, marshalling the payload into the
//! sandbox's textual buffer convention, interpreting every possible outcome
//! of the sandboxed call, and the length-capped trace rendering.
//!
//! Loading artifact bytes and running the sandboxed virtual machine are the
//! caller's I/O; this module states what holds of the result for every
//! outcome the machine can produce.
use vstd::prelude::*;
use vstd::slice::{slice_subrange, slice_to_vec};
use crate::text::{bytes_of, dec_digits, lit, push_bytes, u64_to_dec};
use crate::tok::{copy_range, STok, STokV, render, render_toks, stoks_view, toks_of, wf_tok, wf_toks};
use crate::lex::{LexErr, LexErrV, lex, lex_from, lemma_lex_render, lemma_lex_wf};


verus! {

/// A dispatch call: the exported name, the artifact address, and the
/// token-sequence payload, as decoded from the flat encoding
/// `<name> "<address>" <payload...>`.
#[derive(Debug)]
pub struct DispatchCall {
    pub name: Vec<u8>,
    pub addr: Vec<u8>,
    pub payload: Vec<STok>,
}

#[verifier::ext_equal]
pub struct DispatchCallV {
    pub name: Seq<u8>,
    pub addr: Seq<u8>,
    pub payload: Seq<STokV>,
}

impl View for DispatchCall {
    type V = DispatchCallV;

    open spec fn view(&self) -> DispatchCallV {
        DispatchCallV { name: self.name@, addr: self.addr@, payload: stoks_view(self.payload@) }
    }
}

/// Why a dispatch failed.
#[derive(Debug)]
pub enum DispatchErr {
    /// The encoding does not start with the exported name.
    MissingName,
    /// The name is not followed by the address string literal.
    MissingAddress,
    /// The artifact holds no export of the requested name: a stale cache or
    /// a mismatched rebuild; fatal.
    MissingExportError,
    /// The sandboxed call trapped; the message is the machine's.
    VmTrap(Vec<u8>),
    /// The machine's result buffer is not a readable token sequence.
    Unreadable(LexErr),
}

#[verifier::ext_equal]
pub enum DispatchErrV {
    MissingName,
    MissingAddress,
    MissingExportError,
    VmTrap(Seq<u8>),
    Unreadable(LexErrV),
}

impl View for DispatchErr {
    type V = DispatchErrV;

    open spec fn view(&self) -> DispatchErrV {
        match self {
            DispatchErr::MissingName => DispatchErrV::MissingName,
            DispatchErr::MissingAddress => DispatchErrV::MissingAddress,
            DispatchErr::MissingExportError => DispatchErrV::MissingExportError,
            DispatchErr::VmTrap(m) => DispatchErrV::VmTrap(m@),
            DispatchErr::Unreadable(e) => DispatchErrV::Unreadable(e@),
        }
    }
}

/// Decoding of the flat dispatch encoding.
pub open spec fn parse_dispatch_spec(ts: Seq<STokV>) -> Result<DispatchCallV, DispatchErrV> {
    if ts.len() == 0 || !(ts[0].tok is Word) {
        Err(DispatchErrV::MissingName)
    } else if ts.len() < 2 || !(ts[1].tok is Str) {
        Err(DispatchErrV::MissingAddress)
    } else {
        Ok(
            DispatchCallV {
                name: ts[0].tok->Word_0,
                addr: ts[1].tok->Str_0,
                payload: ts.skip(2),
            },
        )
    }
}

/// Decodes a dispatch call from its token encoding: the first token is the
/// exported name, the second the address string literal, the rest the
/// payload.
pub fn parse_dispatch(ts: &Vec<STok>) -> (r: Result<DispatchCall, DispatchErr>)
    ensures
        match r {
            Ok(c) => parse_dispatch_spec(stoks_view(ts@)) == Ok::<_, DispatchErrV>(c@),
            Err(e) => parse_dispatch_spec(stoks_view(ts@)) == Err::<DispatchCallV, _>(e@),
        },
{
    let ghost sv = stoks_view(ts@);
    proof {
        if ts@.len() > 0 {
            assert(sv[0] == ts@[0]@);
        }
        if ts@.len() > 1 {
            assert(sv[1] == ts@[1]@);
        }
    }
    if ts.len() == 0 {
        return Err(DispatchErr::MissingName);
    }
    let name = match &ts[0].tok {
        crate::tok::Tok::Word(w) => slice_to_vec(w.as_slice()),
        _ => {
            return Err(DispatchErr::MissingName);
        },
    };
    if ts.len() < 2 {
        return Err(DispatchErr::MissingAddress);
    }
    let addr = match &ts[1].tok {
        crate::tok::Tok::Str(c) => slice_to_vec(c.as_slice()),
        _ => {
            return Err(DispatchErr::MissingAddress);
        },
    };
    let payload = copy_range(ts, 2, ts.len());
    let c = DispatchCall { name, addr, payload };
    proof {
        assert(sv.subrange(2, sv.len() as int) =~= sv.skip(2));
        assert(c@ =~= parse_dispatch_spec(sv)->Ok_0);
    }
    Ok(c)
}

/// The sandbox's buffer-argument convention: the payload rendered as text.
pub open spec fn marshalled(payload: Seq<STokV>) -> Seq<u8> {
    render_toks(toks_of(payload))
}

/// Marshals the payload for the sandboxed call.
pub fn marshal_payload(call: &DispatchCall) -> (r: Vec<u8>)
    ensures
        r@ == marshalled(call@.payload),
{
    render(&call.payload)
}

/// Every outcome a sandboxed call can end in.
#[derive(Debug)]
pub enum VmOutcome {
    /// The exported function returned this buffer.
    Output(Vec<u8>),
    /// The requested export does not exist in the artifact.
    MissingExport,
    /// The machine trapped with this message.
    Trap(Vec<u8>),
}

#[verifier::ext_equal]
pub enum VmOutcomeV {
    Output(Seq<u8>),
    MissingExport,
    Trap(Seq<u8>),
}

impl View for VmOutcome {
    type V = VmOutcomeV;

    open spec fn view(&self) -> VmOutcomeV {
        match self {
            VmOutcome::Output(b) => VmOutcomeV::Output(b@),
            VmOutcome::MissingExport => VmOutcomeV::MissingExport,
            VmOutcome::Trap(m) => VmOutcomeV::Trap(m@),
        }
    }
}

/// What dispatch yields for each outcome of the sandboxed call: a returned
/// buffer is read back as tokens, a missing export and a trap are fatal.
pub open spec fn interp_outcome(o: VmOutcomeV) -> Result<Seq<STokV>, DispatchErrV> {
    match o {
        VmOutcomeV::Output(b) => match lex_from(b, 1, 1) {
            Ok(ts) => Ok(ts),
            Err(e) => Err(DispatchErrV::Unreadable(e)),
        },
        VmOutcomeV::MissingExport => Err(DispatchErrV::MissingExportError),
        VmOutcomeV::Trap(m) => Err(DispatchErrV::VmTrap(m)),
    }
}

/// Unmarshals the sandboxed call's outcome back into a token sequence, for
/// every value the machine can have produced.
pub fn unmarshal_outcome(o: VmOutcome) -> (r: Result<Vec<STok>, DispatchErr>)
    requires
        o@ matches VmOutcomeV::Output(b) ==> b.len() < 0xffff_ffff_ffff_0000u64,
    ensures
        match r {
            Ok(ts) => interp_outcome(o@) == Ok::<_, DispatchErrV>(stoks_view(ts@)),
            Err(e) => interp_outcome(o@) == Err::<Seq<STokV>, _>(e@),
        },
{
    match o {
        VmOutcome::Output(b) => match lex(&b) {
            Ok(ts) => Ok(ts),
            Err(e) => Err(DispatchErr::Unreadable(e)),
        },
        VmOutcome::MissingExport => Err(DispatchErr::MissingExportError),
        VmOutcome::Trap(m) => Err(DispatchErr::VmTrap(m)),
    }
}

/// Round-trip marshalling: when the sandboxed function returns its input
/// buffer unchanged, the dispatched result is textually equal to the
/// payload it was called with.
pub proof fn lemma_marshal_round_trip(payload: Seq<STokV>)
    requires
        wf_toks(toks_of(payload)),
    ensures
        interp_outcome(VmOutcomeV::Output(marshalled(payload))) is Ok,
        marshalled(interp_outcome(VmOutcomeV::Output(marshalled(payload)))->Ok_0) == marshalled(
            payload,
        ),
{
    lemma_lex_render(toks_of(payload), 1, 1);
}

/// A dispatch call decoded from lexed text has a well-formed payload, so
/// the round-trip law applies to it.
pub proof fn lemma_lexed_dispatch_wf(s: Seq<u8>)
    ensures
        ({
            let l = lex_from(s, 1, 1);
            l is Ok ==> {
                let c = parse_dispatch_spec(l->Ok_0);
                c is Ok ==> wf_toks(toks_of(c->Ok_0.payload))
            }
        }),
{
    lemma_lex_wf(s, 1, 1);
    match lex_from(s, 1, 1) {
        Ok(ts) => {
            match parse_dispatch_spec(ts) {
                Ok(c) => {
                    assert forall|i: int| 0 <= i < toks_of(c.payload).len() implies wf_tok(
                        #[trigger] toks_of(c.payload)[i],
                    ) by {
                        assert(c.payload[i] == ts[i + 2]);
                        assert(toks_of(c.payload)[i] == toks_of(ts)[i + 2]);
                    }
                },
                Err(_) => {},
            }
        },
        Err(_) => {},
    }
}

/// The byte length above which traces are shortened.
pub open spec fn trace_cap() -> int {
    1000
}

/// The length-capped trace rendering: text up to the cap is shown whole;
/// longer text is shown as its first 400 bytes, the elided middle's length,
/// and its last 400 bytes.
pub open spec fn truncated(s: Seq<u8>) -> Seq<u8> {
    if s.len() <= trace_cap() {
        s
    } else {
        s.take(400) + bytes_of("[..."@) + dec_digits((s.len() - 800) as nat) + bytes_of(
            " bytes...]"@,
        ) + s.skip(s.len() - 400)
    }
}

/// Renders a trace of the given text, shortened past the cap.
pub fn truncated_render(s: &Vec<u8>) -> (r: Vec<u8>)
    ensures
        r@ == truncated(s@),
{
    if s.len() <= 1000 {
        return slice_to_vec(s.as_slice());
    }
    proof {
        reveal_strlit("[...");
        reveal_strlit(" bytes...]");
    }
    let mut r: Vec<u8> = Vec::new();
    let head = slice_to_vec(slice_subrange(s.as_slice(), 0, 400));
    push_bytes(&mut r, &head);
    let k1 = lit("[...");
    push_bytes(&mut r, &k1);
    let mid = u64_to_dec((s.len() - 800) as u64);
    push_bytes(&mut r, &mid);
    let k2 = lit(" bytes...]");
    push_bytes(&mut r, &k2);
    let tail = slice_to_vec(slice_subrange(s.as_slice(), s.len() - 400, s.len()));
    push_bytes(&mut r, &tail);
    proof {
        assert(s@.subrange(0, 400) =~= s@.take(400));
        assert(s@.subrange(s@.len() - 400, s@.len() as int) =~= s@.skip(s@.len() - 400));
        assert(r@ =~= truncated(s@));
    }
    r
}

} // verus!
