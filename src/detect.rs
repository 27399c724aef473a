use vstd::prelude::*;

use crate::ball::{in_range, Ball};
use crate::collision::{check_collides, overlaps};

verus! {

/// `a` comes before `b` in the enumeration order: ascending first index, then second.
pub open spec fn pair_before(a: (usize, usize), b: (usize, usize)) -> bool {
    a.0 < b.0 || (a.0 == b.0 && a.1 < b.1)
}

/// `r` lists exactly the overlapping index pairs `(i, j)`, `i < j`, of `balls`, in
/// enumeration order.
pub open spec fn is_collision_list(balls: Seq<Ball>, r: Seq<(usize, usize)>) -> bool {
    &&& forall|k: int|
        0 <= k < r.len() ==> {
            let (i, j) = #[trigger] r[k];
            &&& i < j < balls.len()
            &&& overlaps(balls[i as int], balls[j as int])
        }
    &&& forall|k1: int, k2: int|
        0 <= k1 < k2 < r.len() ==> pair_before(#[trigger] r[k1], #[trigger] r[k2])
    &&& forall|i: usize, j: usize|
        i < j < balls.len() && #[trigger] overlaps(balls[i as int], balls[j as int])
            ==> r.contains((i, j))
}

/// Every overlapping pair of balls, tested exhaustively over all unordered index pairs.
pub fn colliding_pairs(balls: &Vec<Ball>) -> (r: Vec<(usize, usize)>)
    requires
        forall|k: int| 0 <= k < balls@.len() ==> in_range(#[trigger] balls@[k]),
    ensures
        is_collision_list(balls@, r@),
{
    let n = balls.len();
    let mut out: Vec<(usize, usize)> = Vec::new();
    let mut i: usize = 0;
    while i < n
        invariant
            n == balls@.len(),
            0 <= i <= n,
            forall|k: int| 0 <= k < n ==> in_range(#[trigger] balls@[k]),
            forall|k: int|
                0 <= k < out@.len() ==> {
                    let (a, b) = #[trigger] out@[k];
                    &&& a < b < n
                    &&& a < i
                    &&& overlaps(balls@[a as int], balls@[b as int])
                },
            forall|k1: int, k2: int|
                0 <= k1 < k2 < out@.len() ==> pair_before(#[trigger] out@[k1], #[trigger] out@[k2]),
            forall|a: usize, b: usize|
                a < b < n && a < i && #[trigger] overlaps(balls@[a as int], balls@[b as int])
                    ==> out@.contains((a, b)),
        decreases n - i,
    {
        let mut j: usize = i + 1;
        while j < n
            invariant
                n == balls@.len(),
                0 <= i < n,
                i + 1 <= j <= n,
                forall|k: int| 0 <= k < n ==> in_range(#[trigger] balls@[k]),
                forall|k: int|
                    0 <= k < out@.len() ==> {
                        let (a, b) = #[trigger] out@[k];
                        &&& a < b < n
                        &&& pair_before((a, b), (i, j))
                        &&& overlaps(balls@[a as int], balls@[b as int])
                    },
                forall|k1: int, k2: int|
                    0 <= k1 < k2 < out@.len() ==> pair_before(
                        #[trigger] out@[k1],
                        #[trigger] out@[k2],
                    ),
                forall|a: usize, b: usize|
                    a < b < n && pair_before((a, b), (i, j)) && #[trigger] overlaps(
                        balls@[a as int],
                        balls@[b as int],
                    ) ==> out@.contains((a, b)),
            decreases n - j,
        {
            if check_collides(&balls[i], &balls[j]) {
                let ghost before = out@;
                out.push((i, j));
                proof {
                    assert(out@[before.len() as int] == (i, j));
                    assert forall|a: usize, b: usize|
                        a < b < n && pair_before((a, b), (i, (j + 1) as usize)) && #[trigger] overlaps(
                            balls@[a as int],
                            balls@[b as int],
                        ) implies out@.contains((a, b)) by {
                        if pair_before((a, b), (i, j)) {
                            let k = choose|k: int| 0 <= k < before.len() && before[k] == (a, b);
                            assert(out@[k] == (a, b));
                        } else {
                            assert(out@[before.len() as int] == (a, b));
                        }
                    }
                }
            }
            j = j + 1;
        }
        i = i + 1;
    }
    out
}

} // verus!
