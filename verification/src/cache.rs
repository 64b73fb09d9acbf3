//! Artifact cache: the freshness rule that decides, from file modification
//! times, whether a previously generated output is still valid for its
//! input, and the naming scheme for cached files.
use vstd::prelude::*;
use crate::text::{bytes_of, hex16, lit, push_bytes, u64_to_hex16};

verus! {

/// Freshness rule for a cached output: valid iff both the input and the
/// output could be observed (`Some`) and the output's modification time is
/// strictly newer than the input's. A missing or unreadable file is passed
/// in as `None` and makes the entry stale, never a hard failure.
pub open spec fn is_fresh(in_mtime: Option<u64>, out_mtime: Option<u64>) -> bool {
    match (in_mtime, out_mtime) {
        (Some(i), Some(o)) => i < o,
        _ => false,
    }
}

/// Returns whether the cached output for an input is still valid, given the
/// modification times of the two files (`None` where the file is missing or
/// its metadata was unreadable).
pub fn already_up_to_date(in_mtime: Option<u64>, out_mtime: Option<u64>) -> (fresh: bool)
    ensures
        fresh == is_fresh(in_mtime, out_mtime),
{
    match (in_mtime, out_mtime) {
        (Some(i), Some(o)) => i < o,
        _ => false,
    }
}

/// Touching the input to a time at or past the output makes the entry
/// stale, so the unit is recompiled; touching only the output, or leaving
/// both alone, never forces a spurious recompile.
pub proof fn lemma_cache_invalidation(t_in: u64, t_out: u64, t_in2: u64, t_out2: u64)
    ensures
        t_in2 >= t_out ==> !is_fresh(Some(t_in2), Some(t_out)),
        is_fresh(Some(t_in), Some(t_out)) && t_out2 >= t_out ==> is_fresh(
            Some(t_in),
            Some(t_out2),
        ),
{
}

/// Where a unit's source is expected: `<root>/src/<name>.tu`.
pub open spec fn in_path_spec(root: Seq<u8>, name: Seq<u8>) -> Seq<u8> {
    root + bytes_of("/src/"@) + name + bytes_of(".tu"@)
}

/// Where a unit's generated stub text is cached: `<scratch>/<name>.stub`.
pub open spec fn out_path_spec(scratch: Seq<u8>, name: Seq<u8>) -> Seq<u8> {
    scratch + bytes_of("/"@) + name + bytes_of(".stub"@)
}

/// Where a compiled artifact lives, addressed by the content hash of the
/// unit source it was built from: `<scratch>/unit_<hash>.bc`.
pub open spec fn artifact_path_spec(scratch: Seq<u8>, hash: u64) -> Seq<u8> {
    scratch + bytes_of("/unit_"@) + hex16(hash) + bytes_of(".bc"@)
}

/// Builds the input path for a unit name under the project root.
pub fn in_path(root: &Vec<u8>, name: &Vec<u8>) -> (r: Vec<u8>)
    ensures
        r@ == in_path_spec(root@, name@),
{
    proof {
        reveal_strlit("/src/");
        reveal_strlit(".tu");
    }
    let mut r: Vec<u8> = Vec::new();
    push_bytes(&mut r, root);
    let s1 = lit("/src/");
    push_bytes(&mut r, &s1);
    push_bytes(&mut r, name);
    let s2 = lit(".tu");
    push_bytes(&mut r, &s2);
    proof {
        assert(r@ =~= in_path_spec(root@, name@));
    }
    r
}

/// Builds the cached-stub path for a unit name under the scratch root.
pub fn out_path(scratch: &Vec<u8>, name: &Vec<u8>) -> (r: Vec<u8>)
    ensures
        r@ == out_path_spec(scratch@, name@),
{
    proof {
        reveal_strlit("/");
        reveal_strlit(".stub");
    }
    let mut r: Vec<u8> = Vec::new();
    push_bytes(&mut r, scratch);
    let s1 = lit("/");
    push_bytes(&mut r, &s1);
    push_bytes(&mut r, name);
    let s2 = lit(".stub");
    push_bytes(&mut r, &s2);
    proof {
        assert(r@ =~= out_path_spec(scratch@, name@));
    }
    r
}

/// Builds the artifact path for a content hash under the scratch root.
pub fn artifact_path(scratch: &Vec<u8>, hash: u64) -> (r: Vec<u8>)
    ensures
        r@ == artifact_path_spec(scratch@, hash),
{
    proof {
        reveal_strlit("/unit_");
        reveal_strlit(".bc");
    }
    let mut r: Vec<u8> = Vec::new();
    push_bytes(&mut r, scratch);
    let s1 = lit("/unit_");
    push_bytes(&mut r, &s1);
    let h = u64_to_hex16(hash);
    push_bytes(&mut r, &h);
    let s2 = lit(".bc");
    push_bytes(&mut r, &s2);
    proof {
        assert(r@ =~= artifact_path_spec(scratch@, hash));
    }
    r
}

} // verus!
