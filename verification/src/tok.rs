//! The lexical token model: the shared data representation for unit source
//! text, stub output and dispatch payloads, together with its textual
//! rendering.
use vstd::prelude::*;
use vstd::slice::slice_to_vec;
use crate::text::{is_word_byte, push_bytes};

verus! {

/// A delimiter kind: parentheses, brackets or braces.
#[derive(Clone, Copy, PartialEq, Eq, Structural, Debug)]
pub enum Delim {
    Paren,
    Bracket,
    Brace,
}

/// A source position range on one line; all fields are 1-based.
#[derive(Clone, Copy, PartialEq, Eq, Structural, Debug)]
pub struct Span {
    pub line: u64,
    pub col_start: u64,
    pub col_end: u64,
}

/// One lexical token.
#[derive(Debug)]
pub enum Tok {
    /// An identifier, keyword or number: a run of letters, digits and `_`.
    Word(Vec<u8>),
    /// A string literal; the field holds the contents without the quotes.
    Str(Vec<u8>),
    /// A single punctuation byte.
    Punct(u8),
    /// An opening delimiter.
    Open(Delim),
    /// A closing delimiter.
    Close(Delim),
}

/// The mathematical value of a token.
#[verifier::ext_equal]
pub enum TokV {
    Word(Seq<u8>),
    Str(Seq<u8>),
    Punct(u8),
    Open(Delim),
    Close(Delim),
}

impl View for Tok {
    type V = TokV;

    open spec fn view(&self) -> TokV {
        match self {
            Tok::Word(w) => TokV::Word(w@),
            Tok::Str(c) => TokV::Str(c@),
            Tok::Punct(p) => TokV::Punct(*p),
            Tok::Open(d) => TokV::Open(*d),
            Tok::Close(d) => TokV::Close(*d),
        }
    }
}

/// The mathematical value of a span.
#[verifier::ext_equal]
pub struct SpanV {
    pub line: int,
    pub col_start: int,
    pub col_end: int,
}

impl View for Span {
    type V = SpanV;

    open spec fn view(&self) -> SpanV {
        SpanV { line: self.line as int, col_start: self.col_start as int, col_end: self.col_end as int }
    }
}

/// A token with the span it was read from.
#[derive(Debug)]
pub struct STok {
    pub tok: Tok,
    pub span: Span,
}

/// The mathematical value of a spanned token.
#[verifier::ext_equal]
pub struct STokV {
    pub tok: TokV,
    pub span: SpanV,
}

impl View for STok {
    type V = STokV;

    open spec fn view(&self) -> STokV {
        STokV { tok: self.tok@, span: self.span@ }
    }
}

/// The values of a sequence of spanned tokens.
pub open spec fn stoks_view(v: Seq<STok>) -> Seq<STokV> {
    v.map_values(|s: STok| s@)
}

pub proof fn lemma_stoks_view_push(v: Seq<STok>, t: STok)
    ensures
        stoks_view(v.push(t)) == stoks_view(v).push(t@),
{
    assert forall|i: int| 0 <= i < v.len() + 1 implies stoks_view(v.push(t))[i] == stoks_view(
        v,
    ).push(t@)[i] by {
        if i < v.len() {
            assert(v.push(t)[i] == v[i]);
        } else {
            assert(v.push(t)[i] == t);
        }
    }
    assert(stoks_view(v.push(t)) =~= stoks_view(v).push(t@));
}

/// The bare token values of a sequence of spanned token values.
pub open spec fn toks_of(v: Seq<STokV>) -> Seq<TokV> {
    v.map_values(|s: STokV| s.tok)
}

/// The byte that opens a delimiter.
pub open spec fn open_byte(d: Delim) -> u8 {
    match d {
        Delim::Paren => 40,
        Delim::Bracket => 91,
        Delim::Brace => 123,
    }
}

/// The byte that closes a delimiter.
pub open spec fn close_byte(d: Delim) -> u8 {
    match d {
        Delim::Paren => 41,
        Delim::Bracket => 93,
        Delim::Brace => 125,
    }
}

pub open spec fn is_open_byte(b: u8) -> bool {
    b == 40 || b == 91 || b == 123
}

pub open spec fn is_close_byte(b: u8) -> bool {
    b == 41 || b == 93 || b == 125
}

/// The delimiter a byte opens or closes.
pub open spec fn delim_of(b: u8) -> Delim {
    if b == 40 || b == 41 {
        Delim::Paren
    } else if b == 91 || b == 93 {
        Delim::Bracket
    } else {
        Delim::Brace
    }
}

/// A byte that forms a punctuation token: visible ASCII that is not a word
/// byte, a quote or a delimiter.
pub open spec fn is_punct_byte(b: u8) -> bool {
    32 < b && b < 127 && !is_word_byte(b) && b != 34 && !is_open_byte(b) && !is_close_byte(b)
}

/// Well-formedness of one token value: exactly the shapes the lexer can
/// produce, so that rendering and re-lexing restores the token.
pub open spec fn wf_tok(t: TokV) -> bool {
    match t {
        TokV::Word(w) => w.len() >= 1 && (forall|i: int| 0 <= i < w.len() ==> is_word_byte(w[i])),
        TokV::Str(c) => forall|i: int|
            0 <= i < c.len() ==> c[i] != 34 && c[i] != 10 && c[i] != 13,
        TokV::Punct(p) => is_punct_byte(p),
        TokV::Open(_) => true,
        TokV::Close(_) => true,
    }
}

pub open spec fn wf_toks(ts: Seq<TokV>) -> bool {
    forall|i: int| 0 <= i < ts.len() ==> wf_tok(#[trigger] ts[i])
}

/// The canonical text of one token.
pub open spec fn render_tok(t: TokV) -> Seq<u8> {
    match t {
        TokV::Word(w) => w,
        TokV::Str(c) => seq![34u8] + c + seq![34u8],
        TokV::Punct(p) => seq![p],
        TokV::Open(d) => seq![open_byte(d)],
        TokV::Close(d) => seq![close_byte(d)],
    }
}

/// The canonical text of a token sequence: tokens separated by one space.
pub open spec fn render_toks(ts: Seq<TokV>) -> Seq<u8>
    decreases ts.len(),
{
    if ts.len() == 0 {
        Seq::empty()
    } else if ts.len() == 1 {
        render_tok(ts[0])
    } else {
        render_tok(ts[0]) + seq![32u8] + render_toks(ts.drop_first())
    }
}

/// Appending one token to a rendered sequence appends a separator and the
/// token's text.
pub proof fn lemma_render_push(ts: Seq<TokV>, t: TokV)
    ensures
        render_toks(ts.push(t)) == if ts.len() == 0 {
            render_tok(t)
        } else {
            render_toks(ts) + seq![32u8] + render_toks(seq![t])
        },
    decreases ts.len(),
{
    if ts.len() == 0 {
        assert(ts.push(t).len() == 1);
        assert(ts.push(t)[0] == t);
    } else {
        assert(ts.push(t).drop_first() =~= ts.drop_first().push(t));
        lemma_render_push(ts.drop_first(), t);
        assert(ts.push(t)[0] == ts[0]);
        if ts.len() == 1 {
            assert(render_toks(ts) == render_tok(ts[0]));
            assert(render_toks(ts.push(t)) == render_tok(ts[0]) + seq![32u8] + render_toks(
                seq![t],
            ));
        } else {
            assert(render_toks(ts) == render_tok(ts[0]) + seq![32u8] + render_toks(
                ts.drop_first(),
            ));
            assert(render_toks(ts.push(t)) == render_tok(ts[0]) + seq![32u8] + render_toks(
                ts.drop_first().push(t),
            ));
            assert(render_tok(ts[0]) + seq![32u8] + (render_toks(ts.drop_first()) + seq![32u8]
                + render_toks(seq![t])) =~= (render_tok(ts[0]) + seq![32u8] + render_toks(
                ts.drop_first(),
            )) + seq![32u8] + render_toks(seq![t]));
        }
    }
}

/// Appends the text of one token to `out`.
pub fn render_tok_into(t: &Tok, out: &mut Vec<u8>)
    ensures
        final(out)@ == old(out)@ + render_tok(t@),
{
    match t {
        Tok::Word(w) => {
            push_bytes(out, w);
        },
        Tok::Str(c) => {
            out.push(34);
            push_bytes(out, c);
            out.push(34);
            proof {
                assert(out@ =~= old(out)@ + render_tok(t@));
            }
        },
        Tok::Punct(p) => {
            out.push(*p);
            proof {
                assert(out@ =~= old(out)@ + render_tok(t@));
            }
        },
        Tok::Open(d) => {
            let b: u8 = match d {
                Delim::Paren => 40,
                Delim::Bracket => 91,
                Delim::Brace => 123,
            };
            out.push(b);
            proof {
                assert(out@ =~= old(out)@ + render_tok(t@));
            }
        },
        Tok::Close(d) => {
            let b: u8 = match d {
                Delim::Paren => 41,
                Delim::Bracket => 93,
                Delim::Brace => 125,
            };
            out.push(b);
            proof {
                assert(out@ =~= old(out)@ + render_tok(t@));
            }
        },
    }
}

/// Renders a token sequence as text, one space between adjacent tokens.
pub fn render(ts: &Vec<STok>) -> (r: Vec<u8>)
    ensures
        r@ == render_toks(toks_of(stoks_view(ts@))),
{
    let mut out: Vec<u8> = Vec::new();
    let mut i: usize = 0;
    while i < ts.len()
        invariant
            i <= ts@.len(),
            out@ == render_toks(toks_of(stoks_view(ts@)).take(i as int)),
        decreases ts@.len() - i,
    {
        if i > 0 {
            out.push(32);
        }
        render_tok_into(&ts[i].tok, &mut out);
        proof {
            let all = toks_of(stoks_view(ts@));
            assert(all.take(i as int).push(all[i as int]) =~= all.take(i + 1));
            lemma_render_push(all.take(i as int), all[i as int]);
            assert(render_toks(seq![all[i as int]]) == render_tok(all[i as int]));
            if i == 0 {
                assert(out@ =~= render_toks(all.take(1)));
            } else {
                assert(out@ =~= render_toks(all.take(i as int)) + seq![32u8] + render_tok(
                    all[i as int],
                ));
            }
        }
        i = i + 1;
    }
    proof {
        assert(toks_of(stoks_view(ts@)).take(ts@.len() as int) =~= toks_of(stoks_view(ts@)));
    }
    out
}


/// Copies one spanned token.
pub fn copy_stok(t: &STok) -> (r: STok)
    ensures
        r@ == t@,
{
    let tok = match &t.tok {
        Tok::Word(w) => Tok::Word(slice_to_vec(w.as_slice())),
        Tok::Str(c) => Tok::Str(slice_to_vec(c.as_slice())),
        Tok::Punct(p) => Tok::Punct(*p),
        Tok::Open(d) => Tok::Open(*d),
        Tok::Close(d) => Tok::Close(*d),
    };
    STok { tok, span: t.span }
}

/// Copies the tokens in `[i, j)`.
pub fn copy_range(ts: &Vec<STok>, i: usize, j: usize) -> (r: Vec<STok>)
    requires
        i <= j <= ts@.len(),
    ensures
        stoks_view(r@) == stoks_view(ts@).subrange(i as int, j as int),
{
    let mut out: Vec<STok> = Vec::new();
    let mut k = i;
    while k < j
        invariant
            i <= k <= j <= ts@.len(),
            stoks_view(out@) =~= stoks_view(ts@).subrange(i as int, k as int),
        decreases j - k,
    {
        let st = copy_stok(&ts[k]);
        proof {
            lemma_stoks_view_push(out@, st);
        }
        out.push(st);
        k = k + 1;
        proof {
            assert(stoks_view(out@) =~= stoks_view(ts@).subrange(i as int, k as int));
        }
    }
    proof {
        assert(stoks_view(out@) =~= stoks_view(ts@).subrange(i as int, j as int));
    }
    out
}

/// Appends copies of the tokens of `src`.
pub fn append_stoks(dst: &mut Vec<STok>, src: &Vec<STok>)
    ensures
        final(dst)@.len() == old(dst)@.len() + src@.len(),
        stoks_view(final(dst)@) == stoks_view(old(dst)@) + stoks_view(src@),
{
    let mut k: usize = 0;
    while k < src.len()
        invariant
            k <= src@.len(),
            stoks_view(dst@) =~= stoks_view(old(dst)@) + stoks_view(src@).take(k as int),
            dst@.len() == old(dst)@.len() + k,
        decreases src@.len() - k,
    {
        let t = copy_stok(&src[k]);
        proof {
            lemma_stoks_view_push(dst@, t);
        }
        dst.push(t);
        k = k + 1;
        proof {
            assert(stoks_view(dst@) =~= stoks_view(old(dst)@) + stoks_view(src@).take(k as int));
        }
    }
    proof {
        assert(stoks_view(src@).take(src@.len() as int) =~= stoks_view(src@));
        assert(stoks_view(dst@) =~= stoks_view(old(dst)@) + stoks_view(src@));
    }
}

} // verus!
