//! Outbound candidate selection. The resolver hands back a list of
//! destination addresses; when an outbound source address is pinned, only
//! candidates of the source's family may be tried, in their original
//! order. The caller binds the socket to `(source_ip, 0)` and connects to
//! each listed candidate in turn, and fails with `Unreachable` when the
//! list is empty or every attempt fails.

use vstd::prelude::*;

verus! {

/// Whether a candidate address may be tried: always without a pinned
/// source, and only on a family match with one.
pub open spec fn spec_family_ok(cand_is_v4: bool, out_is_v4: Option<bool>) -> bool {
    match out_is_v4 {
        None => true,
        Some(o) => cand_is_v4 == o,
    }
}

/// The positions of the candidates to try, in resolver order: exactly
/// those whose family the pinned source (if any) allows.
pub fn connect_attempt_order(cand_is_v4: &Vec<bool>, out_is_v4: Option<bool>) -> (r: Vec<usize>)
    ensures
        forall|k: int|
            0 <= k < r@.len() ==> (#[trigger] r@[k]) < cand_is_v4@.len() && spec_family_ok(
                cand_is_v4@[r@[k] as int],
                out_is_v4,
            ),
        forall|k1: int, k2: int| 0 <= k1 < k2 < r@.len() ==> r@[k1] < r@[k2],
        forall|i: int|
            0 <= i < cand_is_v4@.len() && spec_family_ok(#[trigger] cand_is_v4@[i], out_is_v4)
                ==> exists|k: int| 0 <= k < r@.len() && #[trigger] r@[k] == i,
{
    let mut r: Vec<usize> = Vec::new();
    let mut i: usize = 0;
    while i < cand_is_v4.len()
        invariant
            i <= cand_is_v4@.len(),
            forall|k: int|
                0 <= k < r@.len() ==> (#[trigger] r@[k]) < i && spec_family_ok(
                    cand_is_v4@[r@[k] as int],
                    out_is_v4,
                ),
            forall|k1: int, k2: int| 0 <= k1 < k2 < r@.len() ==> r@[k1] < r@[k2],
            forall|i2: int|
                0 <= i2 < i && spec_family_ok(#[trigger] cand_is_v4@[i2], out_is_v4) ==> exists|
                    k: int,
                |
                    0 <= k < r@.len() && #[trigger] r@[k] == i2,
        decreases cand_is_v4@.len() - i,
    {
        let ok = match out_is_v4 {
            None => true,
            Some(o) => cand_is_v4[i] == o,
        };
        if ok {
            let ghost oldr = r@;
            r.push(i);
            assert(r@[r@.len() - 1] == i);
            assert(forall|k: int| 0 <= k < oldr.len() ==> r@[k] == oldr[k]);
        }
        i += 1;
    }
    r
}

} // verus!
