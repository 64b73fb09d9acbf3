//! The lexer: turns unit source text into the token model of `tok`.
//!
//! The grammar is deliberately small: words (letters, digits, `_`),
//! double-quoted string literals without escapes, single punctuation bytes,
//! and the three delimiter pairs. Whitespace separates tokens. A string left
//! open at a line end or at the end of input, or a byte outside the printable
//! ASCII range, is a lexical error carrying its position.
use vstd::prelude::*;
use vstd::slice::{slice_subrange, slice_to_vec};
use crate::text::{is_word_byte, word_byte};
use crate::tok::{
    Delim, Span, SpanV, STok, STokV, Tok, TokV, close_byte, delim_of, is_close_byte, is_open_byte,
    is_punct_byte, open_byte, render_tok, render_toks, stoks_view, toks_of, wf_tok, wf_toks,
};

verus! {

/// What went wrong while reading the text.
#[derive(Clone, Copy, PartialEq, Eq, Structural, Debug)]
pub enum LexErrKind {
    /// A string literal is not closed before the line or the input ends.
    UnterminatedStr,
    /// A byte outside the printable ASCII range.
    BadByte,
}

/// A lexical error at a 1-based position.
#[derive(Clone, Copy, PartialEq, Eq, Structural, Debug)]
pub struct LexErr {
    pub line: u64,
    pub col: u64,
    pub kind: LexErrKind,
}

/// The mathematical value of a lexical error.
#[verifier::ext_equal]
pub struct LexErrV {
    pub line: int,
    pub col: int,
    pub kind: LexErrKind,
}

impl View for LexErr {
    type V = LexErrV;

    open spec fn view(&self) -> LexErrV {
        LexErrV { line: self.line as int, col: self.col as int, kind: self.kind }
    }
}

/// The maximal prefix of word bytes.
pub open spec fn take_word(s: Seq<u8>) -> Seq<u8>
    decreases s.len(),
{
    if s.len() == 0 || !is_word_byte(s[0]) {
        Seq::empty()
    } else {
        seq![s[0]] + take_word(s.drop_first())
    }
}

/// The contents of a string literal, read after its opening quote: bytes up
/// to the next quote, `None` if a line break or the end of input comes first.
pub open spec fn take_str(s: Seq<u8>) -> Option<Seq<u8>>
    decreases s.len(),
{
    if s.len() == 0 {
        None
    } else if s[0] == 34 {
        Some(Seq::empty())
    } else if s[0] == 10 || s[0] == 13 {
        None
    } else {
        match take_str(s.drop_first()) {
            None => None,
            Some(c) => Some(seq![s[0]] + c),
        }
    }
}

pub proof fn lemma_take_word_len(s: Seq<u8>)
    ensures
        take_word(s).len() <= s.len(),
        s.len() > 0 && is_word_byte(s[0]) ==> take_word(s).len() >= 1,
    decreases s.len(),
{
    if s.len() > 0 && is_word_byte(s[0]) {
        lemma_take_word_len(s.drop_first());
    }
}

pub proof fn lemma_take_str_len(s: Seq<u8>)
    ensures
        take_str(s) matches Some(c) ==> c.len() + 1 <= s.len(),
    decreases s.len(),
{
    if s.len() > 0 && s[0] != 34 && s[0] != 10 && s[0] != 13 {
        lemma_take_str_len(s.drop_first());
    }
}

/// `take_word` yields exactly the run of word bytes before index `k`.
pub proof fn lemma_take_word_exact(s: Seq<u8>, k: int)
    requires
        0 <= k <= s.len(),
        forall|m: int| 0 <= m < k ==> is_word_byte(#[trigger] s[m]),
        k == s.len() || !is_word_byte(s[k]),
    ensures
        take_word(s) == s.take(k),
    decreases k,
{
    if k == 0 {
        assert(take_word(s) =~= s.take(0));
    } else {
        lemma_take_word_exact(s.drop_first(), k - 1);
        assert(forall|m: int|
            0 <= m < k - 1 ==> is_word_byte(#[trigger] s.drop_first()[m]) == is_word_byte(
                s[m + 1],
            ));
        assert(take_word(s) == seq![s[0]] + s.drop_first().take(k - 1));
        assert(seq![s[0]] + s.drop_first().take(k - 1) =~= s.take(k));
    }
}

/// `take_str` yields exactly the bytes before the closing quote at index `k`,
/// and fails exactly when a line break or the end comes first.
pub proof fn lemma_take_str_exact(s: Seq<u8>, k: int)
    requires
        0 <= k <= s.len(),
        forall|m: int| 0 <= m < k ==> #[trigger] s[m] != 34 && s[m] != 10 && s[m] != 13,
    ensures
        k == s.len() ==> take_str(s) is None,
        k < s.len() && s[k] == 34 ==> take_str(s) == Some(s.take(k)),
        k < s.len() && (s[k] == 10 || s[k] == 13) ==> take_str(s) is None,
    decreases k,
{
    if k == 0 {
        if k < s.len() && s[k] == 34 {
            assert(take_str(s) =~= Some(s.take(0)));
            assert(Seq::<u8>::empty() =~= s.take(0));
        }
    } else {
        lemma_take_str_exact(s.drop_first(), k - 1);
        assert(forall|m: int| 0 <= m < k - 1 ==> #[trigger] s.drop_first()[m] == s[m + 1]);
        if k < s.len() && s[k] == 34 {
            assert(s.drop_first()[k - 1] == s[k]);
            assert(take_str(s.drop_first()) == Some(s.drop_first().take(k - 1)));
            assert(seq![s[0]] + s.drop_first().take(k - 1) =~= s.take(k));
        }
    }
}

/// Prefixes a token onto a lexer outcome.
pub open spec fn cons_lex(t: STokV, r: Result<Seq<STokV>, LexErrV>) -> Result<
    Seq<STokV>,
    LexErrV,
> {
    match r {
        Ok(ts) => Ok(seq![t] + ts),
        Err(e) => Err(e),
    }
}

/// The tokens of the text `s`, read from 1-based position (`line`, `col`).
pub open spec fn lex_from(s: Seq<u8>, line: int, col: int) -> Result<Seq<STokV>, LexErrV>
    decreases s.len(),
    via lex_from_dec
{
    if s.len() == 0 {
        Ok(Seq::empty())
    } else {
        let b = s[0];
        if b == 10 {
            lex_from(s.drop_first(), line + 1, 1)
        } else if b == 32 || b == 9 || b == 13 {
            lex_from(s.drop_first(), line, col + 1)
        } else if is_word_byte(b) {
            let w = take_word(s);
            cons_lex(
                STokV {
                    tok: TokV::Word(w),
                    span: SpanV { line, col_start: col, col_end: col + w.len() - 1 },
                },
                lex_from(s.skip(w.len() as int), line, col + w.len()),
            )
        } else if b == 34 {
            match take_str(s.drop_first()) {
                None => Err(LexErrV { line, col, kind: LexErrKind::UnterminatedStr }),
                Some(c) => cons_lex(
                    STokV {
                        tok: TokV::Str(c),
                        span: SpanV { line, col_start: col, col_end: col + c.len() + 1 },
                    },
                    lex_from(s.skip(c.len() as int + 2), line, col + c.len() + 2),
                ),
            }
        } else if is_open_byte(b) {
            cons_lex(
                STokV {
                    tok: TokV::Open(delim_of(b)),
                    span: SpanV { line, col_start: col, col_end: col },
                },
                lex_from(s.drop_first(), line, col + 1),
            )
        } else if is_close_byte(b) {
            cons_lex(
                STokV {
                    tok: TokV::Close(delim_of(b)),
                    span: SpanV { line, col_start: col, col_end: col },
                },
                lex_from(s.drop_first(), line, col + 1),
            )
        } else if is_punct_byte(b) {
            cons_lex(
                STokV {
                    tok: TokV::Punct(b),
                    span: SpanV { line, col_start: col, col_end: col },
                },
                lex_from(s.drop_first(), line, col + 1),
            )
        } else {
            Err(LexErrV { line, col, kind: LexErrKind::BadByte })
        }
    }
}

#[via_fn]
proof fn lex_from_dec(s: Seq<u8>, line: int, col: int) {
    if s.len() > 0 {
        if is_word_byte(s[0]) {
            lemma_take_word_len(s);
        } else if s[0] == 34 {
            lemma_take_str_len(s.drop_first());
        }
    }
}

/// Prefixes already-read tokens onto the outcome for the remaining text.
pub open spec fn lex_prepend(pre: Seq<STokV>, r: Result<Seq<STokV>, LexErrV>) -> Result<
    Seq<STokV>,
    LexErrV,
> {
    match r {
        Ok(ts) => Ok(pre + ts),
        Err(e) => Err(e),
    }
}

proof fn lemma_prepend_step(pre: Seq<STokV>, t: STokV, r: Result<Seq<STokV>, LexErrV>)
    ensures
        lex_prepend(pre, cons_lex(t, r)) == lex_prepend(pre.push(t), r),
{
    match r {
        Ok(ts) => {
            assert(pre + (seq![t] + ts) =~= pre.push(t) + ts);
        },
        Err(_) => {},
    }
}

/// The exec outcome agrees with the spec outcome.
pub open spec fn lex_matches(r: Result<Vec<STok>, LexErr>, s: Result<Seq<STokV>, LexErrV>) -> bool {
    match (r, s) {
        (Ok(v), Ok(ts)) => stoks_view(v@) == ts,
        (Err(e), Err(ev)) => e@ == ev,
        _ => false,
    }
}

/// Reads the whole input into tokens, or reports the first lexical error.
pub fn lex(input: &Vec<u8>) -> (r: Result<Vec<STok>, LexErr>)
    requires
        input@.len() < 0xffff_ffff_ffff_0000u64,
    ensures
        lex_matches(r, lex_from(input@, 1, 1)),
{
    let n = input.len();
    let mut i: usize = 0;
    let mut line: u64 = 1;
    let mut col: u64 = 1;
    let mut out: Vec<STok> = Vec::new();
    proof {
        assert(input@.skip(0) =~= input@);
        assert(stoks_view(out@) =~= Seq::<STokV>::empty());
        match lex_from(input@, 1, 1) {
            Ok(ts) => {
                assert(Seq::<STokV>::empty() + ts =~= ts);
            },
            Err(_) => {},
        }
    }
    while i < n
        invariant
            i <= n,
            n == input@.len(),
            input@.len() < 0xffff_ffff_ffff_0000u64,
            1 <= line as int <= i as int + 1,
            1 <= col as int <= i as int + 1,
            lex_from(input@, 1, 1) == lex_prepend(
                stoks_view(out@),
                lex_from(input@.skip(i as int), line as int, col as int),
            ),
        decreases n - i,
    {
        let ghost suf = input@.skip(i as int);
        proof {
            assert(suf.len() == n - i);
            assert(suf[0] == input@[i as int]);
            assert(suf.drop_first() =~= input@.skip(i as int + 1));
        }
        let b = input[i];
        if b == 10 {
            i = i + 1;
            line = line + 1;
            col = 1;
        } else if b == 32 || b == 9 || b == 13 {
            i = i + 1;
            col = col + 1;
        } else if word_byte(b) {
            let mut j = i + 1;
            while j < n && word_byte(input[j])
                invariant
                    i < j <= n,
                    n == input@.len(),
                    forall|m: int| i <= m < j ==> is_word_byte(#[trigger] input@[m]),
                decreases n - j,
            {
                j = j + 1;
            }
            proof {
                assert(forall|m: int|
                    0 <= m < j - i ==> is_word_byte(#[trigger] suf[m]) == is_word_byte(
                        input@[m + i],
                    ));
                lemma_take_word_exact(suf, j - i);
                assert(suf.take(j - i) =~= input@.subrange(i as int, j as int));
            }
            let w = slice_to_vec(slice_subrange(input.as_slice(), i, j));
            let span = Span { line, col_start: col, col_end: col + (j - i - 1) as u64 };
            let st = STok { tok: Tok::Word(w), span };
            proof {
                let wv = take_word(suf);
                let stv = STokV {
                    tok: TokV::Word(wv),
                    span: SpanV {
                        line: line as int,
                        col_start: col as int,
                        col_end: col as int + wv.len() - 1,
                    },
                };
                assert(st@ == stv);
                assert(lex_from(suf, line as int, col as int) == cons_lex(
                    stv,
                    lex_from(suf.skip(wv.len() as int), line as int, col as int + wv.len()),
                ));
                assert(suf.skip(wv.len() as int) =~= input@.skip(j as int));
                lemma_prepend_step(
                    stoks_view(out@),
                    stv,
                    lex_from(input@.skip(j as int), line as int, col as int + wv.len()),
                );
                assert(stoks_view(out@).push(stv) =~= stoks_view(out@.push(st)));
            }
            out.push(st);
            col = col + (j - i) as u64;
            i = j;
        } else if b == 34 {
            let mut j = i + 1;
            while j < n && input[j] != 34 && input[j] != 10 && input[j] != 13
                invariant
                    i < j <= n,
                    n == input@.len(),
                    forall|m: int|
                        i < m < j ==> #[trigger] input@[m] != 34 && input@[m] != 10
                            && input@[m] != 13,
                decreases n - j,
            {
                j = j + 1;
            }
            proof {
                let tail = suf.drop_first();
                assert(tail =~= input@.skip(i as int + 1));
                assert(forall|m: int|
                    0 <= m < j - i - 1 ==> #[trigger] tail[m] == input@[m + i + 1]);
                lemma_take_str_exact(tail, j - i - 1);
            }
            if j == n {
                proof {
                    assert(take_str(suf.drop_first()) is None);
                }
                return Err(LexErr { line, col, kind: LexErrKind::UnterminatedStr });
            }
            let bj = input[j];
            if bj == 10 || bj == 13 {
                proof {
                    assert(suf.drop_first()[j - i - 1] == input@[j as int]);
                    assert(take_str(suf.drop_first()) is None);
                }
                return Err(LexErr { line, col, kind: LexErrKind::UnterminatedStr });
            }
            // bj == 34: the literal closes at j.
            let c = slice_to_vec(slice_subrange(input.as_slice(), i + 1, j));
            let span = Span { line, col_start: col, col_end: col + (j - i) as u64 };
            let st = STok { tok: Tok::Str(c), span };
            proof {
                let tail = suf.drop_first();
                assert(tail[j - i - 1] == input@[j as int]);
                assert(take_str(tail) == Some(tail.take(j - i - 1)));
                let cv = tail.take(j - i - 1);
                assert(cv =~= input@.subrange(i as int + 1, j as int));
                assert(c@ == cv);
                let stv = STokV {
                    tok: TokV::Str(cv),
                    span: SpanV {
                        line: line as int,
                        col_start: col as int,
                        col_end: col as int + cv.len() + 1,
                    },
                };
                assert(st@ == stv);
                assert(lex_from(suf, line as int, col as int) == cons_lex(
                    stv,
                    lex_from(suf.skip(cv.len() as int + 2), line as int, col as int + cv.len() + 2),
                ));
                assert(suf.skip(cv.len() as int + 2) =~= input@.skip(j as int + 1));
                lemma_prepend_step(
                    stoks_view(out@),
                    stv,
                    lex_from(input@.skip(j as int + 1), line as int, col as int + cv.len() + 2),
                );
                assert(stoks_view(out@).push(stv) =~= stoks_view(out@.push(st)));
            }
            out.push(st);
            col = col + (j + 1 - i) as u64;
            i = j + 1;
        } else if b == 40 || b == 91 || b == 123 || b == 41 || b == 93 || b == 125 {
            let d: Delim = if b == 40 || b == 41 {
                Delim::Paren
            } else if b == 91 || b == 93 {
                Delim::Bracket
            } else {
                Delim::Brace
            };
            let opening = b == 40 || b == 91 || b == 123;
            let span = Span { line, col_start: col, col_end: col };
            let st = if opening {
                STok { tok: Tok::Open(d), span }
            } else {
                STok { tok: Tok::Close(d), span }
            };
            proof {
                let stv = st@;
                assert(lex_from(suf, line as int, col as int) == cons_lex(
                    stv,
                    lex_from(suf.drop_first(), line as int, col as int + 1),
                ));
                lemma_prepend_step(
                    stoks_view(out@),
                    stv,
                    lex_from(input@.skip(i as int + 1), line as int, col as int + 1),
                );
                assert(stoks_view(out@).push(stv) =~= stoks_view(out@.push(st)));
            }
            out.push(st);
            i = i + 1;
            col = col + 1;
        } else if 32 < b && b < 127 {
            let span = Span { line, col_start: col, col_end: col };
            let st = STok { tok: Tok::Punct(b), span };
            proof {
                let stv = st@;
                assert(is_punct_byte(b));
                assert(lex_from(suf, line as int, col as int) == cons_lex(
                    stv,
                    lex_from(suf.drop_first(), line as int, col as int + 1),
                ));
                lemma_prepend_step(
                    stoks_view(out@),
                    stv,
                    lex_from(input@.skip(i as int + 1), line as int, col as int + 1),
                );
                assert(stoks_view(out@).push(stv) =~= stoks_view(out@.push(st)));
            }
            out.push(st);
            i = i + 1;
            col = col + 1;
        } else {
            proof {
                assert(lex_from(suf, line as int, col as int) == Err::<Seq<STokV>, LexErrV>(
                    LexErrV { line: line as int, col: col as int, kind: LexErrKind::BadByte },
                ));
            }
            return Err(LexErr { line, col, kind: LexErrKind::BadByte });
        }
    }
    proof {
        assert(input@.skip(i as int).len() == 0);
        assert(lex_from(input@.skip(i as int), line as int, col as int) == Ok::<
            Seq<STokV>,
            LexErrV,
        >(Seq::empty()));
        assert(stoks_view(out@) + Seq::<STokV>::empty() =~= stoks_view(out@));
    }
    Ok(out)
}


/// The span the lexer assigns to a token read at (`line`, `col`).
pub open spec fn lexed_span(t: TokV, line: int, col: int) -> SpanV {
    match t {
        TokV::Word(w) => SpanV { line, col_start: col, col_end: col + w.len() - 1 },
        TokV::Str(c) => SpanV { line, col_start: col, col_end: col + c.len() + 1 },
        TokV::Punct(_) => SpanV { line, col_start: col, col_end: col },
        TokV::Open(_) => SpanV { line, col_start: col, col_end: col },
        TokV::Close(_) => SpanV { line, col_start: col, col_end: col },
    }
}

/// Reading one well-formed token's text consumes exactly that token, when
/// the text after it is empty or starts with a space.
proof fn lemma_lex_one(t: TokV, tail: Seq<u8>, line: int, col: int)
    requires
        wf_tok(t),
        tail.len() == 0 || tail[0] == 32,
    ensures
        lex_from(render_tok(t) + tail, line, col) == cons_lex(
            STokV { tok: t, span: lexed_span(t, line, col) },
            lex_from(tail, line, col + render_tok(t).len()),
        ),
{
    let s = render_tok(t) + tail;
    match t {
        TokV::Word(w) => {
            assert(s[0] == w[0]);
            assert(forall|m: int| 0 <= m < w.len() ==> #[trigger] s[m] == w[m]);
            assert(w.len() == s.len() || s[w.len() as int] == tail[0]);
            lemma_take_word_exact(s, w.len() as int);
            assert(s.take(w.len() as int) =~= w);
            assert(s.skip(w.len() as int) =~= tail);
        },
        TokV::Str(c) => {
            assert(s[0] == 34);
            let t2 = s.drop_first();
            assert(t2 =~= c + seq![34u8] + tail);
            assert(forall|m: int| 0 <= m < c.len() ==> #[trigger] t2[m] == c[m]);
            assert(t2[c.len() as int] == 34);
            lemma_take_str_exact(t2, c.len() as int);
            assert(t2.take(c.len() as int) =~= c);
            assert(s.skip(c.len() as int + 2) =~= tail);
        },
        TokV::Punct(p) => {
            assert(s[0] == p);
            assert(s.drop_first() =~= tail);
        },
        TokV::Open(d) => {
            assert(s[0] == open_byte(d));
            assert(delim_of(open_byte(d)) == d);
            assert(s.drop_first() =~= tail);
        },
        TokV::Close(d) => {
            assert(s[0] == close_byte(d));
            assert(delim_of(close_byte(d)) == d);
            assert(s.drop_first() =~= tail);
        },
    }
}

/// Round trip: lexing the canonical rendering of well-formed tokens
/// restores exactly those tokens.
pub proof fn lemma_lex_render(ts: Seq<TokV>, line: int, col: int)
    requires
        wf_toks(ts),
    ensures
        lex_from(render_toks(ts), line, col) is Ok,
        toks_of(lex_from(render_toks(ts), line, col)->Ok_0) == ts,
    decreases ts.len(),
{
    if ts.len() == 0 {
        assert(toks_of(Seq::<STokV>::empty()) =~= ts);
    } else if ts.len() == 1 {
        assert(wf_tok(ts[0]));
        lemma_lex_one(ts[0], Seq::empty(), line, col);
        assert(render_tok(ts[0]) + Seq::<u8>::empty() =~= render_toks(ts));
        let stv = STokV { tok: ts[0], span: lexed_span(ts[0], line, col) };
        assert(lex_from(Seq::empty(), line, col + render_tok(ts[0]).len()) == Ok::<
            Seq<STokV>,
            LexErrV,
        >(Seq::empty()));
        assert(seq![stv] + Seq::<STokV>::empty() =~= seq![stv]);
        assert(toks_of(seq![stv]) =~= ts);
    } else {
        let rest = ts.drop_first();
        assert(forall|i: int| 0 <= i < rest.len() ==> wf_tok(#[trigger] rest[i]) == wf_tok(
            ts[i + 1],
        ));
        let tail = seq![32u8] + render_toks(rest);
        assert(wf_tok(ts[0]));
        lemma_lex_one(ts[0], tail, line, col);
        assert(render_tok(ts[0]) + tail =~= render_toks(ts));
        let col2 = col + render_tok(ts[0]).len();
        assert(tail[0] == 32);
        assert(tail.drop_first() =~= render_toks(rest));
        lemma_lex_render(rest, line, col2 + 1);
        let stv = STokV { tok: ts[0], span: lexed_span(ts[0], line, col) };
        let ss = lex_from(render_toks(rest), line, col2 + 1)->Ok_0;
        assert(lex_from(tail, line, col2) == Ok::<Seq<STokV>, LexErrV>(ss));
        assert(lex_from(render_toks(ts), line, col) == Ok::<Seq<STokV>, LexErrV>(seq![stv] + ss));
        assert(toks_of(seq![stv] + ss) =~= seq![ts[0]] + toks_of(ss));
        assert(seq![ts[0]] + toks_of(ss) =~= ts);
    }
}

proof fn lemma_take_word_wf(s: Seq<u8>)
    ensures
        forall|i: int| 0 <= i < take_word(s).len() ==> is_word_byte(#[trigger] take_word(s)[i]),
    decreases s.len(),
{
    if s.len() > 0 && is_word_byte(s[0]) {
        lemma_take_word_wf(s.drop_first());
        let w = take_word(s);
        let w2 = take_word(s.drop_first());
        assert(forall|i: int| 1 <= i < w.len() ==> #[trigger] w[i] == w2[i - 1]);
    }
}

proof fn lemma_take_str_wf(s: Seq<u8>)
    ensures
        take_str(s) matches Some(c) ==> forall|i: int|
            0 <= i < c.len() ==> #[trigger] c[i] != 34 && c[i] != 10 && c[i] != 13,
    decreases s.len(),
{
    if s.len() > 0 && s[0] != 34 && s[0] != 10 && s[0] != 13 {
        lemma_take_str_wf(s.drop_first());
    }
}

/// Every token the lexer produces is well-formed, so rendering and re-lexing
/// it restores it.
pub proof fn lemma_lex_wf(s: Seq<u8>, line: int, col: int)
    ensures
        lex_from(s, line, col) matches Ok(ts) ==> wf_toks(toks_of(ts)),
    decreases s.len(),
{
    if s.len() > 0 {
        let b = s[0];
        if b == 10 {
            lemma_lex_wf(s.drop_first(), line + 1, 1);
        } else if b == 32 || b == 9 || b == 13 {
            lemma_lex_wf(s.drop_first(), line, col + 1);
        } else if is_word_byte(b) {
            let w = take_word(s);
            lemma_take_word_len(s);
            lemma_take_word_wf(s);
            lemma_lex_wf(s.skip(w.len() as int), line, col + w.len());
            assert(wf_tok(TokV::Word(w)));
            if lex_from(s, line, col) is Ok {
                let ts = lex_from(s, line, col)->Ok_0;
                let ss = lex_from(s.skip(w.len() as int), line, col + w.len())->Ok_0;
                assert(forall|i: int|
                    1 <= i < ts.len() ==> #[trigger] toks_of(ts)[i] == toks_of(ss)[i - 1]);
            }
        } else if b == 34 {
            match take_str(s.drop_first()) {
                None => {},
                Some(c) => {
                    lemma_take_str_len(s.drop_first());
                    lemma_take_str_wf(s.drop_first());
                    lemma_lex_wf(s.skip(c.len() as int + 2), line, col + c.len() + 2);
                    assert(wf_tok(TokV::Str(c)));
                    if lex_from(s, line, col) is Ok {
                        let ts = lex_from(s, line, col)->Ok_0;
                        let ss = lex_from(s.skip(c.len() as int + 2), line, col + c.len() + 2)->Ok_0;
                        assert(forall|i: int|
                            1 <= i < ts.len() ==> #[trigger] toks_of(ts)[i] == toks_of(ss)[i - 1]);
                    }
                },
            }
        } else if is_open_byte(b) || is_close_byte(b) || is_punct_byte(b) {
            lemma_lex_wf(s.drop_first(), line, col + 1);
            if lex_from(s, line, col) is Ok {
                let ts = lex_from(s, line, col)->Ok_0;
                let ss = lex_from(s.drop_first(), line, col + 1)->Ok_0;
                assert(forall|i: int|
                    1 <= i < ts.len() ==> #[trigger] toks_of(ts)[i] == toks_of(ss)[i - 1]);
            }
        }
    }
}

} // verus!
