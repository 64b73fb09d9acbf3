//! A deterministic content hash for addressing compiled artifacts: 64-bit
//! FNV-1a over the unit's source bytes. Identical source bytes give the
//! same artifact address on every machine, so a cache race between
//! concurrent builds is a byte-identical overwrite.
use vstd::prelude::*;

verus! {

/// The FNV-1a 64-bit offset basis.
pub open spec fn fnv_offset() -> u64 {
    0xcbf29ce484222325u64
}

/// One FNV-1a step: fold a byte in and multiply by the FNV prime.
pub open spec fn fnv1a_step(acc: u64, b: u8) -> u64 {
    (acc ^ (b as u64)).wrapping_mul(0x100000001b3u64)
}

/// The accumulator after folding in the bytes from index `i` on.
pub open spec fn fnv1a_from(acc: u64, s: Seq<u8>, i: int) -> u64
    decreases s.len() - i,
{
    if i < 0 || i >= s.len() {
        acc
    } else {
        fnv1a_from(fnv1a_step(acc, s[i]), s, i + 1)
    }
}

/// The FNV-1a 64-bit hash of a byte sequence.
pub open spec fn fnv1a(s: Seq<u8>) -> u64 {
    fnv1a_from(fnv_offset(), s, 0)
}

/// Computes the FNV-1a 64-bit hash of the given bytes.
pub fn content_hash(s: &Vec<u8>) -> (r: u64)
    ensures
        r == fnv1a(s@),
{
    let mut acc: u64 = 0xcbf29ce484222325u64;
    let mut i: usize = 0;
    while i < s.len()
        invariant
            i <= s@.len(),
            fnv1a(s@) == fnv1a_from(acc, s@, i as int),
        decreases s@.len() - i,
    {
        acc = (acc ^ (s[i] as u64)).wrapping_mul(0x100000001b3u64);
        i = i + 1;
    }
    acc
}

} // verus!
