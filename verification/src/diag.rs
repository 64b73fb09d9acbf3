//! Diagnostics: formats an error with source-span context — the raw error
//! text, a `--> file:line:col` locator, the offending source line verbatim,
//! and a caret underline spanning the error's columns. Lines and columns
//! are 1-based. Pure: the caller supplies the source text.
use vstd::prelude::*;
use vstd::slice::slice_to_vec;
use crate::text::{bytes_of, dec_digits, lit, push_bytes, repeat_byte, u64_to_dec, byte_run};
use crate::tok::Span;
use crate::toolchain::{lemma_line_end_bounds, line_end};

verus! {

/// The index where the 1-based line `n` starts; the text's length when
/// there are fewer lines.
pub open spec fn line_start(s: Seq<u8>, n: int) -> int
    decreases n,
    via line_start_dec
{
    if n <= 1 {
        0
    } else {
        let p = line_end(s, line_start(s, n - 1));
        if p >= s.len() {
            s.len() as int
        } else {
            p + 1
        }
    }
}

#[via_fn]
proof fn line_start_dec(s: Seq<u8>, n: int) {
}

pub proof fn lemma_line_start_bounds(s: Seq<u8>, n: int)
    ensures
        0 <= line_start(s, n) <= s.len(),
    decreases n,
{
    if n > 1 {
        lemma_line_start_bounds(s, n - 1);
        lemma_line_end_bounds(s, line_start(s, n - 1));
    }
}

/// Once past the last line, every later line starts at the end.
proof fn lemma_line_start_saturates(s: Seq<u8>, k: int, m: int)
    requires
        1 <= k <= m,
        line_start(s, k) == s.len(),
    ensures
        line_start(s, m) == s.len(),
    decreases m - k,
{
    if m > k {
        lemma_line_start_saturates(s, k, m - 1);
        lemma_line_start_bounds(s, m - 1);
        lemma_line_end_bounds(s, line_start(s, m - 1));
    }
}

/// The text of the 1-based line `n`, without its line break; empty when the
/// text has fewer lines.
pub open spec fn line_text(s: Seq<u8>, n: int) -> Seq<u8> {
    s.subrange(line_start(s, n), line_end(s, line_start(s, n)))
}

/// The caret underline for a span: spaces up to the start column, then one
/// caret per spanned column, at least one.
pub open spec fn caret_line(col_start: int, col_end: int) -> Seq<u8> {
    let pad = if col_start >= 1 {
        col_start - 1
    } else {
        0
    };
    let width = if col_end >= col_start {
        col_end - col_start + 1
    } else {
        1
    };
    repeat_byte(32, pad as nat) + repeat_byte(94, width as nat)
}

/// The formatted message: the raw error text, the locator, the offending
/// line verbatim, and the caret underline.
pub open spec fn diagnostic_spec(
    path: Seq<u8>,
    source: Seq<u8>,
    err_text: Seq<u8>,
    line: int,
    col_start: int,
    col_end: int,
) -> Seq<u8> {
    err_text + bytes_of("\n --> "@) + path + seq![58u8] + dec_digits(
        (if line >= 0 {
            line
        } else {
            0
        }) as nat,
    ) + seq![58u8] + dec_digits(
        (if col_start >= 0 {
            col_start
        } else {
            0
        }) as nat,
    ) + seq![10u8] + line_text(source, line) + seq![10u8] + caret_line(col_start, col_end) + seq![
        10u8,
    ]
}

/// Finds the start index of the 1-based line `n`.
fn find_line_start(s: &Vec<u8>, n: u64) -> (r: usize)
    requires
        n >= 1,
    ensures
        r == line_start(s@, n as int),
{
    let len = s.len();
    let mut k: u64 = 1;
    let mut cur: usize = 0;
    while k < n && cur < len
        invariant
            1 <= k <= n,
            cur == line_start(s@, k as int),
            0 <= cur <= s@.len(),
            len == s@.len(),
        decreases n - k,
    {
        // Advance past the end of the current line.
        let mut j = cur;
        while j < len && s[j] != 10
            invariant
                cur <= j <= len,
                len == s@.len(),
                forall|m: int| cur <= m < j ==> s@[m] != 10,
            decreases len - j,
        {
            j = j + 1;
        }
        proof {
            crate::toolchain::lemma_line_end_exact(s@, cur as int, j as int);
        }
        if j >= len {
            cur = len;
        } else {
            cur = j + 1;
        }
        k = k + 1;
    }
    if k < n {
        // cur reached the end early; every later line also starts there.
        proof {
            lemma_line_start_saturates(s@, k as int, n as int);
        }
        return cur;
    }
    cur
}

/// Formats an error with its source context: the raw error text, a
/// `--> path:line:col` locator, the offending source line reproduced
/// verbatim, and a caret underline from the error's start column to its end
/// column (at least one caret). Lines and columns are 1-based.
#[verifier::rlimit(60)]
pub fn format_diagnostic(path: &Vec<u8>, source: &Vec<u8>, err_text: &Vec<u8>, span: Span) -> (r:
    Vec<u8>)
    requires
        span.col_start < usize::MAX as u64,
        span.col_end < usize::MAX as u64,
    ensures
        r@ == diagnostic_spec(
            path@,
            source@,
            err_text@,
            span.line as int,
            span.col_start as int,
            span.col_end as int,
        ),
{
    proof {
        reveal_strlit("\n --> ");
    }
    let mut r: Vec<u8> = Vec::new();
    push_bytes(&mut r, err_text);
    let k1 = lit("\n --> ");
    push_bytes(&mut r, &k1);
    push_bytes(&mut r, path);
    r.push(58);
    let ln = u64_to_dec(span.line);
    push_bytes(&mut r, &ln);
    r.push(58);
    let cs = u64_to_dec(span.col_start);
    push_bytes(&mut r, &cs);
    r.push(10);
    // The offending line, verbatim.
    let start = find_line_start(source, if span.line >= 1 {
        span.line
    } else {
        1
    });
    proof {
        if span.line < 1 {
            assert(line_start(source@, span.line as int) == 0);
            assert(line_start(source@, 1) == 0);
        }
        lemma_line_start_bounds(source@, span.line as int);
        lemma_line_end_bounds(source@, line_start(source@, span.line as int));
    }
    let mut j = start;
    let len = source.len();
    while j < len && source[j] != 10
        invariant
            start <= j <= len,
            len == source@.len(),
            forall|m: int| start <= m < j ==> source@[m] != 10,
        decreases len - j,
    {
        j = j + 1;
    }
    proof {
        crate::toolchain::lemma_line_end_exact(source@, start as int, j as int);
    }
    let line = slice_to_vec(vstd::slice::slice_subrange(source.as_slice(), start, j));
    push_bytes(&mut r, &line);
    r.push(10);
    // The caret underline.
    let pad: u64 = if span.col_start >= 1 {
        span.col_start - 1
    } else {
        0
    };
    let width: u64 = if span.col_end >= span.col_start {
        span.col_end - span.col_start + 1
    } else {
        1
    };
    let spaces = byte_run(32, pad as usize);
    push_bytes(&mut r, &spaces);
    let carets = byte_run(94, width as usize);
    push_bytes(&mut r, &carets);
    r.push(10);
    proof {
        assert(r@ =~= diagnostic_spec(
            path@,
            source@,
            err_text@,
            span.line as int,
            span.col_start as int,
            span.col_end as int,
        ));
    }
    r
}

} // verus!
