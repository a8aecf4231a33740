use vstd::prelude::*;

use crate::registry::BodySlot;

verus! {

/// Positions `i < j` form a pair worth testing: not both bodies immovable.
pub open spec fn is_candidate(s: Seq<BodySlot>, i: int, j: int) -> bool {
    0 <= i < j < s.len() && !(s[i].immovable && s[j].immovable)
}

/// The lexicographic order on pairs of positions.
pub open spec fn pair_lt(p: (usize, usize), q: (usize, usize)) -> bool {
    p.0 < q.0 || (p.0 == q.0 && p.1 < q.1)
}

/// Every pair of `s` that the narrow phase must look at, each once, in
/// lexicographic order of positions; pairs of two immovable bodies are
/// skipped.
pub fn candidate_pairs(slots: &Vec<BodySlot>) -> (r: Vec<(usize, usize)>)
    ensures
        forall|k: int| 0 <= k < r@.len() ==> is_candidate(slots@, (#[trigger] r@[k]).0 as int, r@[k].1 as int),
        forall|k: int, l: int| 0 <= k < l < r@.len() ==> pair_lt(#[trigger] r@[k], #[trigger] r@[l]),
        forall|i: int, j: int| #[trigger] is_candidate(slots@, i, j) ==> r@.contains((i as usize, j as usize)),
{
    let n = slots.len();
    let mut r: Vec<(usize, usize)> = Vec::new();
    let mut i: usize = 0;
    while i < n
        invariant
            n == slots@.len(),
            i <= n,
            forall|k: int| 0 <= k < r@.len() ==> is_candidate(slots@, (#[trigger] r@[k]).0 as int, r@[k].1 as int),
            forall|k: int, l: int| 0 <= k < l < r@.len() ==> pair_lt(#[trigger] r@[k], #[trigger] r@[l]),
            forall|k: int| 0 <= k < r@.len() ==> (#[trigger] r@[k]).0 < i,
            forall|a: int, b: int| #[trigger] is_candidate(slots@, a, b) && a < i ==> r@.contains((a as usize, b as usize)),
        decreases n - i,
    {
        let mut j: usize = i + 1;
        while j < n
            invariant
                n == slots@.len(),
                i < n,
                i + 1 <= j <= n,
                forall|k: int| 0 <= k < r@.len() ==> is_candidate(slots@, (#[trigger] r@[k]).0 as int, r@[k].1 as int),
                forall|k: int, l: int| 0 <= k < l < r@.len() ==> pair_lt(#[trigger] r@[k], #[trigger] r@[l]),
                forall|k: int| 0 <= k < r@.len() ==> pair_lt(#[trigger] r@[k], (i, j)),
                forall|a: int, b: int| #[trigger] is_candidate(slots@, a, b) && (a < i || (a == i && b < j)) ==> r@.contains((a as usize, b as usize)),
            decreases n - j,
        {
            if !(slots[i].immovable && slots[j].immovable) {
                let ghost r0 = r@;
                r.push((i, j));
                assert forall|a: int, b: int| #[trigger] is_candidate(slots@, a, b) && (a < i || (a == i && b < j + 1)) implies r@.contains((a as usize, b as usize)) by {
                    if a == i && b == j {
                        assert(r@[r0.len() as int] == (i, j));
                    } else {
                        let k = choose|k: int| 0 <= k < r0.len() && r0[k] == (a as usize, b as usize);
                        assert(r@[k] == r0[k]);
                    }
                }
            }
            j = j + 1;
        }
        i = i + 1;
    }
    r
}

} // verus!
