//! Ore veins: positions linked by short steps, and their centers.
use vstd::prelude::*;
use crate::pos::BlockPos;
use crate::mining_goals::within_tenths;

verus! {

/// `v` is the vein of `seed` among `all`: it starts at `seed`, holds no
/// position twice, each later position is one of `all` within reach of an
/// earlier one, and every one of `all` within reach of a member is a member.
pub open spec fn is_vein(v: Seq<BlockPos>, seed: BlockPos, all: Seq<BlockPos>, tenths: int) -> bool {
    &&& v.len() >= 1
    &&& v[0] == seed
    &&& v.no_duplicates()
    &&& forall|i: int|
        #![trigger v[i]]
        1 <= i < v.len() ==> all.contains(v[i]) && exists|j: int|
            0 <= j < i && within_tenths(v[j], v[i], tenths)
    &&& forall|i: int, m: int|
        0 <= i < v.len() && 0 <= m < all.len() && within_tenths(v[i], all[m], tenths) ==> v.contains(
            all[m],
        )
}

proof fn lemma_within_symmetric(a: BlockPos, b: BlockPos, tenths: int)
    ensures
        within_tenths(a, b, tenths) == within_tenths(b, a, tenths),
{
    assert((a.x - b.x) * (a.x - b.x) == (b.x - a.x) * (b.x - a.x)) by (nonlinear_arith);
    assert((a.y - b.y) * (a.y - b.y) == (b.y - a.y) * (b.y - a.y)) by (nonlinear_arith);
    assert((a.z - b.z) * (a.z - b.z) == (b.z - a.z) * (b.z - a.z)) by (nonlinear_arith);
}

/// A vein that shares a position with another vein among the same
/// positions holds that vein's first position too.
pub proof fn lemma_vein_reaches_seed(v: Seq<BlockPos>, w: Seq<BlockPos>, all: Seq<BlockPos>, tenths: int, k: int)
    requires
        is_vein(v, v[0], all, tenths),
        is_vein(w, w[0], all, tenths),
        all.contains(v[0]),
        0 <= k < v.len(),
        w.contains(v[k]),
    ensures
        w.contains(v[0]),
    decreases k,
{
    if k > 0 {
        let j = choose|j: int| 0 <= j < k && within_tenths(v[j], v[k], tenths);
        lemma_within_symmetric(v[j], v[k], tenths);
        let a = choose|a: int| 0 <= a < w.len() && w[a] == v[k];
        if j > 0 {
            assert(all.contains(v[j]));
        }
        let m = choose|m: int| 0 <= m < all.len() && all[m] == v[j];
        assert(within_tenths(w[a], all[m], tenths));
        assert(w.contains(v[j]));
        lemma_vein_reaches_seed(v, w, all, tenths, j);
    }
}

pub open spec fn count_false(m: Seq<bool>) -> nat
    decreases m.len(),
{
    if m.len() == 0 {
        0
    } else {
        count_false(m.drop_last()) + if m.last() { 0nat } else { 1nat }
    }
}

proof fn lemma_mark(m: Seq<bool>, j: int)
    requires
        0 <= j < m.len(),
        !m[j],
    ensures
        count_false(m.update(j, true)) + 1 == count_false(m),
    decreases m.len(),
{
    if j == m.len() - 1 {
        assert(m.update(j, true).drop_last() == m.drop_last());
    } else {
        lemma_mark(m.drop_last(), j);
        assert(m.update(j, true).drop_last() == m.drop_last().update(j, true));
    }
}

pub fn contains_pos(v: &Vec<BlockPos>, p: BlockPos) -> (r: bool)
    ensures
        r == v@.contains(p),
{
    let mut i: usize = 0;
    while i < v.len()
        invariant
            i <= v@.len(),
            forall|j: int| 0 <= j < i ==> v@[j] != p,
        decreases v@.len() - i,
    {
        if v[i] == p {
            return true;
        }
        i = i + 1;
    }
    false
}

pub fn within(a: BlockPos, b: BlockPos, tenths: u32) -> (r: bool)
    ensures
        r == within_tenths(a, b, tenths as int),
{
    let d = a.distance_squared_to(b);
    let t = tenths as u128;
    assert(t * t <= 0x1_0000_0000_0000_0000u128) by (nonlinear_arith)
        requires t <= u32::MAX;
    d * 100 <= t * t
}

/// The vein of `seed` among `all`, found by flood fill.
pub fn connected_vein(seed: BlockPos, all: &Vec<BlockPos>, tenths: u32) -> (r: Vec<BlockPos>)
    ensures
        is_vein(r@, seed, all@, tenths as int),
{
    let mut vein: Vec<BlockPos> = Vec::new();
    vein.push(seed);
    let mut marked: Vec<bool> = Vec::new();
    let mut n: usize = 0;
    while n < all.len()
        invariant
            n <= all@.len(),
            marked@.len() == n,
            forall|m: int| 0 <= m < n ==> !marked@[m],
        decreases all@.len() - n,
    {
        marked.push(false);
        n = n + 1;
    }
    let mut k: usize = 0;
    while k < vein.len()
        invariant
            k <= vein@.len(),
            vein@.len() >= 1,
            vein@[0] == seed,
            vein@.no_duplicates(),
            marked@.len() == all@.len(),
            forall|i: int|
                #![trigger vein@[i]]
                1 <= i < vein@.len() ==> all@.contains(vein@[i]) && exists|j: int|
                    0 <= j < i && within_tenths(vein@[j], vein@[i], tenths as int),
            forall|m: int| 0 <= m < all@.len() && marked@[m] ==> vein@.contains(all@[m]),
            forall|i: int, m: int|
                0 <= i < k && 0 <= m < all@.len() && within_tenths(vein@[i], all@[m], tenths as int)
                    ==> vein@.contains(all@[m]),
        decreases count_false(marked@), vein@.len() - k,
    {
        let cur = vein[k];
        let ghost marks0 = marked@;
        let ghost len0 = vein@.len();
        let mut j: usize = 0;
        while j < all.len()
            invariant
                k < vein@.len(),
                len0 <= vein@.len(),
                cur == vein@[k as int],
                j <= all@.len(),
                vein@.len() >= 1,
                vein@[0] == seed,
                vein@.no_duplicates(),
                marked@.len() == all@.len(),
                forall|i: int|
                    #![trigger vein@[i]]
                    1 <= i < vein@.len() ==> all@.contains(vein@[i]) && exists|jj: int|
                        0 <= jj < i && within_tenths(vein@[jj], vein@[i], tenths as int),
                forall|m: int| 0 <= m < all@.len() && marked@[m] ==> vein@.contains(all@[m]),
                forall|i: int, m: int|
                    0 <= i < k && 0 <= m < all@.len() && within_tenths(vein@[i], all@[m], tenths as int)
                        ==> vein@.contains(all@[m]),
                forall|m: int|
                    0 <= m < j && within_tenths(cur, all@[m], tenths as int) ==> vein@.contains(all@[m]),
                count_false(marked@) <= count_false(marks0),
                count_false(marked@) == count_false(marks0) ==> vein@.len() == len0,
            decreases all@.len() - j,
        {
            let p = all[j];
            if !marked[j] && within(cur, p, tenths) {
                proof {
                    lemma_mark(marked@, j as int);
                }
                let ghost before = vein@;
                marked.set(j, true);
                if !contains_pos(&vein, p) {
                    vein.push(p);
                    proof {
                        assert(vein@[vein@.len() - 1] == p);
                        assert(all@.contains(p)) by {
                            assert(all@[j as int] == p);
                        }
                        assert forall|a: int, b: int| 0 <= a < b < vein@.len() implies vein@[a] != vein@[b] by {
                            if b == vein@.len() - 1 {
                                assert(before[a] == vein@[a]);
                            } else {
                                assert(before[a] != before[b]);
                            }
                        }
                        assert forall|x: BlockPos| before.contains(x) implies vein@.contains(x) by {
                            let i = choose|i: int| 0 <= i < before.len() && before[i] == x;
                            assert(vein@[i] == x);
                        }
                        let last = vein@.len() - 1;
                        assert(within_tenths(vein@[k as int], vein@[last], tenths as int));
                        assert forall|i: int|
                            #![trigger vein@[i]]
                            1 <= i < vein@.len() implies all@.contains(vein@[i]) && exists|jj: int|
                                0 <= jj < i && within_tenths(vein@[jj], vein@[i], tenths as int) by {
                            if i < last {
                                assert(before[i] == vein@[i]);
                                let jj = choose|jj: int| 0 <= jj < i && within_tenths(before[jj], before[i], tenths as int);
                                assert(vein@[jj] == before[jj]);
                            }
                        }
                        assert(vein@.contains(p));
                    }
                }
            }
            j = j + 1;
        }
        k = k + 1;
    }
    vein
}

/// Sum of the coordinates picked by `f`.
pub open spec fn sum_x(v: Seq<BlockPos>) -> int
    decreases v.len(),
{
    if v.len() == 0 { 0 } else { sum_x(v.drop_last()) + v.last().x }
}

pub open spec fn sum_y(v: Seq<BlockPos>) -> int
    decreases v.len(),
{
    if v.len() == 0 { 0 } else { sum_y(v.drop_last()) + v.last().y }
}

pub open spec fn sum_z(v: Seq<BlockPos>) -> int
    decreases v.len(),
{
    if v.len() == 0 { 0 } else { sum_z(v.drop_last()) + v.last().z }
}

/// Division rounding toward zero.
pub open spec fn trunc_div(a: int, n: int) -> int {
    if a >= 0 {
        a / n
    } else {
        -((-a) / n)
    }
}

/// The mean position, each coordinate rounded toward zero; the origin for no
/// positions.
pub open spec fn centroid(v: Seq<BlockPos>) -> BlockPos {
    if v.len() == 0 {
        BlockPos { x: 0, y: 0, z: 0 }
    } else {
        BlockPos {
            x: trunc_div(sum_x(v), v.len() as int) as i32,
            y: trunc_div(sum_y(v), v.len() as int) as i32,
            z: trunc_div(sum_z(v), v.len() as int) as i32,
        }
    }
}

fn mean_coord(sum: i128, n: i128) -> (r: i32)
    requires
        1 <= n <= usize::MAX,
        n * i32::MIN <= sum <= n * i32::MAX,
    ensures
        r == trunc_div(sum as int, n as int),
{
    if sum >= 0 {
        assert(sum / n <= i32::MAX) by (nonlinear_arith)
            requires sum <= n * i32::MAX, n >= 1, sum >= 0;
        (sum / n) as i32
    } else {
        assert(sum >= -0x8000_0000 * 0xffff_ffff_ffff_ffffi128) by (nonlinear_arith)
            requires n * i32::MIN <= sum, 1 <= n <= 0xffff_ffff_ffff_ffffi128;
        let m = -sum;
        assert(m / n <= 0x8000_0000) by (nonlinear_arith)
            requires m <= n * 0x8000_0000, n >= 1, m >= 0;
        assert(m / n >= 0) by (nonlinear_arith)
            requires m >= 0, n >= 1;
        -((m / n) as i128) as i32
    }
}

/// The mean position of `v`, each coordinate rounded toward zero.
pub fn vein_center(v: &Vec<BlockPos>) -> (r: BlockPos)
    ensures
        r == centroid(v@),
{
    if v.len() == 0 {
        return BlockPos { x: 0, y: 0, z: 0 };
    }
    let mut sx: i128 = 0;
    let mut sy: i128 = 0;
    let mut sz: i128 = 0;
    let mut i: usize = 0;
    while i < v.len()
        invariant
            i <= v@.len(),
            v@.len() <= usize::MAX,
            sx == sum_x(v@.subrange(0, i as int)),
            sy == sum_y(v@.subrange(0, i as int)),
            sz == sum_z(v@.subrange(0, i as int)),
            i * i32::MIN <= sx <= i * i32::MAX,
            i * i32::MIN <= sy <= i * i32::MAX,
            i * i32::MIN <= sz <= i * i32::MAX,
        decreases v@.len() - i,
    {
        proof {
            assert(v@.subrange(0, i + 1).drop_last() == v@.subrange(0, i as int));
        }
        sx = sx + v[i].x as i128;
        sy = sy + v[i].y as i128;
        sz = sz + v[i].z as i128;
        i = i + 1;
    }
    proof {
        assert(v@.subrange(0, v@.len() as int) == v@);
    }
    let n = v.len() as i128;
    BlockPos { x: mean_coord(sx, n), y: mean_coord(sy, n), z: mean_coord(sz, n) }
}

} // verus!
