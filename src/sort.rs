//! Ordering positions by their distance to a center.
use vstd::prelude::*;
use vstd::seq_lib::{to_multiset_build, to_multiset_insert};
use crate::pos::{BlockPos, manhattan, dist_sq};

verus! {

/// The distance that orders positions: Manhattan or squared Euclidean.
pub open spec fn sort_key(p: BlockPos, center: BlockPos, by_manhattan: bool) -> int {
    if by_manhattan {
        manhattan(p, center)
    } else {
        dist_sq(p, center)
    }
}

pub open spec fn sorted_by_key(s: Seq<BlockPos>, center: BlockPos, by_manhattan: bool) -> bool {
    forall|i: int, j: int|
        0 <= i <= j < s.len() ==> sort_key(s[i], center, by_manhattan) <= sort_key(
            s[j],
            center,
            by_manhattan,
        )
}

fn key_of(p: BlockPos, center: BlockPos, by_manhattan: bool) -> (r: u128)
    ensures
        r == sort_key(p, center, by_manhattan),
{
    if by_manhattan {
        p.manhattan_to(center) as u128
    } else {
        p.distance_squared_to(center)
    }
}

/// The positions of `v`, nearest to `center` first.
pub fn sort_by_distance(v: &Vec<BlockPos>, center: BlockPos, by_manhattan: bool) -> (r: Vec<BlockPos>)
    ensures
        r@.to_multiset() == v@.to_multiset(),
        r@.len() == v@.len(),
        sorted_by_key(r@, center, by_manhattan),
{
    let mut out: Vec<BlockPos> = Vec::new();
    let mut i: usize = 0;
    proof {
        assert(v@.take(0) =~= Seq::<BlockPos>::empty());
    }
    while i < v.len()
        invariant
            i <= v@.len(),
            out@.to_multiset() == v@.take(i as int).to_multiset(),
            out@.len() == i,
            sorted_by_key(out@, center, by_manhattan),
        decreases v@.len() - i,
    {
        let e = v[i];
        let k = key_of(e, center, by_manhattan);
        let mut p: usize = 0;
        while p < out.len() && key_of(out[p], center, by_manhattan) <= k
            invariant
                p <= out@.len(),
                forall|j: int| 0 <= j < p ==> sort_key(out@[j], center, by_manhattan) <= k,
            decreases out@.len() - p,
        {
            p = p + 1;
        }
        let ghost before = out@;
        proof {
            to_multiset_insert(before, p as int, e);
            to_multiset_build(v@.take(i as int), e);
            assert(v@.take(i + 1) == v@.take(i as int).push(e));
        }
        out.insert(p, e);
        proof {
            assert forall|a: int, b: int| 0 <= a <= b < out@.len() implies sort_key(
                out@[a],
                center,
                by_manhattan,
            ) <= sort_key(out@[b], center, by_manhattan) by {
                if p < before.len() {
                    assert(sort_key(before[p as int], center, by_manhattan) > k);
                }
                if a < p && b == p {
                } else if a < p && b > p {
                    assert(out@[b] == before[b - 1]);
                } else if a == p && b > p {
                    assert(out@[b] == before[b - 1]);
                    assert(sort_key(before[p as int], center, by_manhattan) <= sort_key(
                        before[b - 1],
                        center,
                        by_manhattan,
                    ));
                } else if a > p {
                    assert(out@[a] == before[a - 1]);
                    assert(out@[b] == before[b - 1]);
                }
            }
        }
        i = i + 1;
    }
    proof {
        assert(v@.take(v@.len() as int) == v@);
    }
    out
}

} // verus!
