//! Plain-text building blocks shared by the whole pipeline: ASCII literals
//! as byte vectors, byte classification, and decimal / hexadecimal rendering
//! of numbers.
use vstd::prelude::*;
use vstd::string::StrSliceExecFns;

verus! {

/// The bytes of an ASCII character sequence.
pub open spec fn bytes_of(s: Seq<char>) -> Seq<u8> {
    Seq::new(s.len(), |i: int| s[i] as u8)
}

/// Turns an ASCII string literal into its byte vector.
pub fn lit(s: &str) -> (r: Vec<u8>)
    requires
        s.is_ascii(),
    ensures
        r@ == bytes_of(s@),
{
    proof {
        vstd::string::is_ascii_spec_bytes(s);
    }
    let r = s.as_bytes_vec();
    proof {
        assert(r@ =~= bytes_of(s@));
    }
    r
}

/// Space, tab, line feed or carriage return.
pub open spec fn is_space(b: u8) -> bool {
    b == 32 || b == 9 || b == 10 || b == 13
}

/// A byte that may occur in a word token: ASCII letter, digit or underscore.
pub open spec fn is_word_byte(b: u8) -> bool {
    (97 <= b && b <= 122) || (65 <= b && b <= 90) || (48 <= b && b <= 57) || b == 95
}

/// Exec mirror of `is_word_byte`.
pub fn word_byte(b: u8) -> (r: bool)
    ensures
        r == is_word_byte(b),
{
    (97 <= b && b <= 122) || (65 <= b && b <= 90) || (48 <= b && b <= 57) || b == 95
}

/// Exec mirror of `is_space`.
pub fn space_byte(b: u8) -> (r: bool)
    ensures
        r == is_space(b),
{
    b == 32 || b == 9 || b == 10 || b == 13
}

/// The decimal digits of `n`, most significant first.
pub open spec fn dec_digits(n: nat) -> Seq<u8>
    decreases n,
{
    if n < 10 {
        seq![(48 + n) as u8]
    } else {
        dec_digits(n / 10).push((48 + n % 10) as u8)
    }
}

/// Renders `n` in decimal.
pub fn u64_to_dec(n: u64) -> (r: Vec<u8>)
    ensures
        r@ == dec_digits(n as nat),
    decreases n,
{
    if n < 10 {
        let mut v: Vec<u8> = Vec::new();
        v.push(48 + n as u8);
        v
    } else {
        let mut v = u64_to_dec(n / 10);
        v.push(48 + (n % 10) as u8);
        v
    }
}

/// `k` copies of the byte `b`.
pub open spec fn repeat_byte(b: u8, k: nat) -> Seq<u8> {
    Seq::new(k, |i: int| b)
}

/// Builds a run of `k` copies of `b`.
pub fn byte_run(b: u8, k: usize) -> (r: Vec<u8>)
    ensures
        r@ == repeat_byte(b, k as nat),
{
    let mut v: Vec<u8> = Vec::new();
    let mut i: usize = 0;
    while i < k
        invariant
            i <= k,
            v@ =~= repeat_byte(b, i as nat),
        decreases k - i,
    {
        v.push(b);
        i = i + 1;
        proof {
            assert(v@ =~= repeat_byte(b, i as nat));
        }
    }
    proof {
        assert(v@ =~= repeat_byte(b, k as nat));
    }
    v
}

/// The lower-case hexadecimal digit for a value below 16.
pub open spec fn hex_digit(n: u8) -> u8 {
    if n < 10 {
        (48 + n) as u8
    } else {
        (87 + n) as u8
    }
}

/// The value of the `i`-th nibble of `n`, most significant first.
pub open spec fn nibble(n: u64, i: int) -> u8 {
    ((n >> (((15 - i) * 4) as u64)) & 0xf) as u8
}

/// `n` as 16 lower-case hexadecimal digits.
pub open spec fn hex16(n: u64) -> Seq<u8> {
    Seq::new(16, |i: int| hex_digit(nibble(n, i)))
}

proof fn lemma_low_nibble(x: u64)
    ensures
        (x & 0xf) < 16,
{
    assert((x & 0xf) < 16) by (bit_vector);
}

/// Renders `n` as 16 lower-case hexadecimal digits.
pub fn u64_to_hex16(n: u64) -> (r: Vec<u8>)
    ensures
        r@ == hex16(n),
{
    let mut v: Vec<u8> = Vec::new();
    let mut i: usize = 0;
    while i < 16
        invariant
            i <= 16,
            v@ =~= hex16(n).take(i as int),
        decreases 16 - i,
    {
        let shift: u64 = (15 - i as u64) * 4;
        let d: u64 = (n >> shift) & 0xf;
        proof {
            lemma_low_nibble(n >> shift);
        }
        let db: u8 = d as u8;
        if db < 10 {
            v.push(48 + db);
        } else {
            v.push(87 + db);
        }
        i = i + 1;
        proof {
            assert(v@ =~= hex16(n).take(i as int));
        }
    }
    proof {
        assert(v@ =~= hex16(n));
    }
    v
}

/// Appends `src` to `dst`.
pub fn push_bytes(dst: &mut Vec<u8>, src: &Vec<u8>)
    ensures
        final(dst)@ == old(dst)@ + src@,
{
    dst.extend_from_slice(src.as_slice());
}

} // verus!
