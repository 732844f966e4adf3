//! Collision-safe destination resolution.
//!
//! Given the set of occupied paths, `resolve_unique` returns the desired
//! path itself when it is free, and otherwise the first numbered
//! candidate `dir/stem-n.ext` (for `n = 1, 2, 3, ...`) that is free.
//! The result is never an occupied path, so no existing file is ever
//! overwritten by writing to it.

use vstd::prelude::*;
use vstd::set_lib::lemma_len_subset;
use crate::names::NameSet;
use crate::paths::{
    build_candidate,
    candidate,
    dir_of,
    ext_of,
    file_name_of,
    lemma_candidate_injective,
    split_desired,
    stem_of,
};

verus! {

/// What it means for `r` to be the resolution of `desired` against the
/// occupied set `s`: `r` is free; it is `desired` itself when `desired`
/// is free, and otherwise the first free numbered candidate.
pub open spec fn resolves(s: Set<Seq<char>>, desired: Seq<char>, r: Seq<char>) -> bool {
    &&& !s.contains(r)
    &&& (!s.contains(desired) ==> r == desired)
    &&& (s.contains(desired) ==> exists|n: nat|
        {
            &&& 1 <= n
            &&& r == candidate(desired, n)
            &&& (forall|m: nat| 1 <= m < n ==> s.contains(candidate(desired, m)))
        })
}

/// The occupied set and the desired path determine the resolution
/// completely: any two paths that both resolve `desired` against `s`
/// are the same path.
pub proof fn lemma_resolution_unique(
    s: Set<Seq<char>>,
    desired: Seq<char>,
    r1: Seq<char>,
    r2: Seq<char>,
)
    requires
        resolves(s, desired, r1),
        resolves(s, desired, r2),
    ensures
        r1 == r2,
{
    if s.contains(desired) {
        let n1 = choose|n: nat|
            1 <= n && r1 == candidate(desired, n) && (forall|m: nat|
                1 <= m < n ==> s.contains(candidate(desired, m)));
        let n2 = choose|n: nat|
            1 <= n && r2 == candidate(desired, n) && (forall|m: nat|
                1 <= m < n ==> s.contains(candidate(desired, m)));
        if n1 < n2 {
            assert(s.contains(candidate(desired, n1)));
        }
        if n2 < n1 {
            assert(s.contains(candidate(desired, n2)));
        }
        assert(n1 == n2);
    }
}

/// Returns a destination path that is not occupied: `desired` itself
/// when free, otherwise the first free candidate `dir/stem-n.ext`.
pub fn resolve_unique(existing: &NameSet, desired: &String) -> (r: String)
    ensures
        resolves(existing@, desired@, r@),
        !existing@.contains(r@),
        !existing@.contains(desired@) ==> r@ == desired@,
{
    if !existing.contains(desired) {
        return desired.clone();
    }
    let (dir, stem, ext) = split_desired(desired);
    let mut n: u128 = 1;
    let ghost mut seen = Set::<Seq<char>>::empty();
    proof {
        existing.lemma_card();
    }
    loop
        invariant
            1 <= n <= existing@.len() + 1,
            existing@.finite(),
            existing@.len() <= usize::MAX,
            existing@.contains(desired@),
            dir@ == dir_of(desired@),
            stem@ == stem_of(file_name_of(desired@)),
            ext@ == ext_of(file_name_of(desired@)),
            seen.finite(),
            seen.len() == n - 1,
            seen.subset_of(existing@),
            forall|m: nat| 1 <= m < n ==> seen.contains(candidate(desired@, m)),
            forall|s: Seq<char>|
                seen.contains(s) ==> exists|m: nat| 1 <= m < n && s == candidate(desired@, m),
        decreases existing@.len() + 1 - n,
    {
        let cand = build_candidate(&dir, &stem, &ext, n);
        proof {
            assert(cand@ == candidate(desired@, n as nat));
        }
        if !existing.contains(&cand) {
            proof {
                assert(forall|m: nat|
                    1 <= m < n ==> existing@.contains(candidate(desired@, m)));
            }
            return cand;
        }
        proof {
            assert(!seen.contains(cand@)) by {
                if seen.contains(cand@) {
                    let m = choose|m: nat| 1 <= m < n && cand@ == candidate(desired@, m);
                    lemma_candidate_injective(desired@, n as nat, m);
                }
            }
            seen = seen.insert(cand@);
            lemma_len_subset(seen, existing@);
        }
        n = n + 1;
    }
}

} // verus!
