//! Goals for mining: where the avatar should stand to break its targets.
use vstd::prelude::*;
use crate::pos::{BlockPos, dist_sq, abs};
use crate::vein::{is_vein, centroid, connected_vein, vein_center, within};

verus! {

/// The direction a strip mine runs in.
#[derive(Clone, Copy, Debug, PartialEq, Eq, Hash, Structural)]
pub enum StripMineDirection {
    North,
    South,
    East,
    West,
}

/// Where the avatar should stand to mine.
#[derive(Clone, Debug)]
pub enum MiningGoal {
    /// Break one block, preferring to stand at a given height.
    SingleBlock { target: BlockPos, prefer_y_level: Option<i32> },
    /// Break any of several blocks; with `allow_internal_mining` false the
    /// avatar must not stand inside one of them.
    MultipleBlocks { targets: Vec<BlockPos>, allow_internal_mining: bool },
    /// Break blocks of a vein; success where at least three lie within
    /// `max_reach_tenths` tenths of a block.
    OreVein { blocks: Vec<BlockPos>, center: BlockPos, max_reach_tenths: u32 },
    /// Mine a strip of `length` blocks ahead, `height` up and `width` across.
    StripMine {
        start: BlockPos,
        direction: StripMineDirection,
        length: u32,
        height: u32,
        width: u32,
    },
}

/// The standard reach, 4.5 blocks, in tenths.
pub const STANDARD_REACH_TENTHS: u32 = 45;

/// `target` is within reach of `pos`: at most 4.5 blocks away, which for
/// whole blocks is a squared distance of at most 20.
pub open spec fn can_mine_from(pos: BlockPos, target: BlockPos) -> bool {
    dist_sq(pos, target) <= 20
}

/// `a` and `b` lie at most `tenths` tenths of a block apart.
pub open spec fn within_tenths(a: BlockPos, b: BlockPos, tenths: int) -> bool {
    dist_sq(a, b) * 100 <= tenths * tenths
}

/// A heuristic value meaning "no target at all".
pub const NO_TARGET: u128 = 0xffff_ffff_ffff_ffff_ffff_ffff_ffff_ffff;

/// The least squared distance from `pos` to one of `ts`.
pub open spec fn min_dist_sq(ts: Seq<BlockPos>, pos: BlockPos) -> int
    decreases ts.len(),
{
    if ts.len() == 0 {
        NO_TARGET as int
    } else {
        let rest = min_dist_sq(ts.drop_last(), pos);
        let d = dist_sq(ts.last(), pos);
        if d < rest { d } else { rest }
    }
}

/// Number of `bs` within `tenths` tenths of a block of `pos`.
pub open spec fn count_within(bs: Seq<BlockPos>, pos: BlockPos, tenths: int) -> nat
    decreases bs.len(),
{
    if bs.len() == 0 {
        0
    } else {
        count_within(bs.drop_last(), pos, tenths) + if within_tenths(bs.last(), pos, tenths) {
            1nat
        } else {
            0nat
        }
    }
}

impl MiningGoal {
    /// The heuristic: the squared distance to the target (the nearest one,
    /// the vein's center or the strip's start), plus twice the distance from
    /// the preferred height for a single block.
    pub open spec fn heuristic_spec(&self, pos: BlockPos) -> int {
        match self {
            MiningGoal::SingleBlock { target, prefer_y_level } => dist_sq(*target, pos) + match prefer_y_level {
                Some(y) => 2 * abs(pos.y - *y),
                None => 0,
            },
            MiningGoal::MultipleBlocks { targets, .. } => min_dist_sq(targets@, pos),
            MiningGoal::OreVein { center, .. } => dist_sq(*center, pos),
            MiningGoal::StripMine { start, .. } => dist_sq(*start, pos),
        }
    }

    pub open spec fn success_spec(&self, pos: BlockPos) -> bool {
        match self {
            MiningGoal::SingleBlock { target, .. } => can_mine_from(pos, *target),
            MiningGoal::MultipleBlocks { targets, allow_internal_mining } => (*allow_internal_mining
                || !targets@.contains(pos)) && exists|i: int|
                0 <= i < targets@.len() && can_mine_from(pos, #[trigger] targets@[i]),
            MiningGoal::OreVein { blocks, max_reach_tenths, .. } => count_within(
                blocks@,
                pos,
                *max_reach_tenths as int,
            ) >= 3,
            MiningGoal::StripMine { start, .. } => dist_sq(pos, *start) <= 2,
        }
    }

    pub fn heuristic(&self, pos: BlockPos) -> (r: u128)
        ensures
            r == self.heuristic_spec(pos),
    {
        match self {
            MiningGoal::SingleBlock { target, prefer_y_level } => {
                let base = target.distance_squared_to(pos);
                match prefer_y_level {
                    Some(y) => {
                        let dy: u128 = if pos.y >= *y {
                            (pos.y as i64 - *y as i64) as u128
                        } else {
                            (*y as i64 - pos.y as i64) as u128
                        };
                        base + 2 * dy
                    },
                    None => base,
                }
            },
            MiningGoal::MultipleBlocks { targets, .. } => {
                let mut best: u128 = NO_TARGET;
                let mut i: usize = 0;
                while i < targets.len()
                    invariant
                        i <= targets@.len(),
                        best == min_dist_sq(targets@.subrange(0, i as int), pos),
                    decreases targets@.len() - i,
                {
                    proof {
                        assert(targets@.subrange(0, i + 1).drop_last() == targets@.subrange(0, i as int));
                    }
                    let d = targets[i].distance_squared_to(pos);
                    if d < best {
                        best = d;
                    }
                    i = i + 1;
                }
                proof {
                    assert(targets@.subrange(0, targets@.len() as int) == targets@);
                }
                best
            },
            MiningGoal::OreVein { center, .. } => center.distance_squared_to(pos),
            MiningGoal::StripMine { start, .. } => start.distance_squared_to(pos),
        }
    }

    pub fn success(&self, pos: BlockPos) -> (r: bool)
        ensures
            r == self.success_spec(pos),
    {
        match self {
            MiningGoal::SingleBlock { target, .. } => can_mine_from_position(pos, *target),
            MiningGoal::MultipleBlocks { targets, allow_internal_mining } => {
                let mut any = false;
                let mut inside = false;
                let mut i: usize = 0;
                while i < targets.len()
                    invariant
                        i <= targets@.len(),
                        any == exists|j: int| 0 <= j < i && can_mine_from(pos, #[trigger] targets@[j]),
                        inside == exists|j: int| 0 <= j < i && targets@[j] == pos,
                    decreases targets@.len() - i,
                {
                    if can_mine_from_position(pos, targets[i]) {
                        any = true;
                    }
                    if targets[i] == pos {
                        inside = true;
                    }
                    i = i + 1;
                }
                (*allow_internal_mining || !inside) && any
            },
            MiningGoal::OreVein { blocks, max_reach_tenths, .. } => {
                let mut count: usize = 0;
                let mut i: usize = 0;
                while i < blocks.len()
                    invariant
                        i <= blocks@.len(),
                        count == count_within(blocks@.subrange(0, i as int), pos, *max_reach_tenths as int),
                        count <= i,
                    decreases blocks@.len() - i,
                {
                    proof {
                        assert(blocks@.subrange(0, i + 1).drop_last() == blocks@.subrange(0, i as int));
                    }
                    if within(blocks[i], pos, *max_reach_tenths) {
                        count = count + 1;
                    }
                    i = i + 1;
                }
                proof {
                    assert(blocks@.subrange(0, blocks@.len() as int) == blocks@);
                }
                count >= 3
            },
            MiningGoal::StripMine { start, .. } => pos.distance_squared_to(*start) <= 2,
        }
    }

    /// A goal for the vein that `initial_ore` belongs to: every ore linked
    /// to it by steps of at most `max_vein_tenths` tenths of a block, with the
    /// standard reach.
    pub fn for_ore_vein(initial_ore: BlockPos, all_ores: &Vec<BlockPos>, max_vein_tenths: u32) -> (r:
        MiningGoal)
        ensures
            r matches MiningGoal::OreVein { blocks, center, max_reach_tenths } && is_vein(
                blocks@,
                initial_ore,
                all_ores@,
                max_vein_tenths as int,
            ) && center == centroid(blocks@) && max_reach_tenths == STANDARD_REACH_TENTHS,
    {
        let blocks = connected_vein(initial_ore, all_ores, max_vein_tenths);
        let center = vein_center(&blocks);
        MiningGoal::OreVein { blocks, center, max_reach_tenths: STANDARD_REACH_TENTHS }
    }

    /// A goal of reaching any of `blocks`.
    pub fn for_scattered_blocks(blocks: Vec<BlockPos>, allow_internal: bool) -> (r: MiningGoal)
        ensures
            r matches MiningGoal::MultipleBlocks { targets, allow_internal_mining } && targets@
                == blocks@ && allow_internal_mining == allow_internal,
    {
        MiningGoal::MultipleBlocks { targets: blocks, allow_internal_mining: allow_internal }
    }
}

fn can_mine_from_position(pos: BlockPos, target: BlockPos) -> (r: bool)
    ensures
        r == can_mine_from(pos, target),
{
    pos.distance_squared_to(target) <= 20
}

/// The block `l` ahead, `h` up and `w` across (centered on the start) in a
/// strip `width` wide.
pub open spec fn strip_pos(start: BlockPos, dir: StripMineDirection, l: int, h: int, w: int, width: int) -> BlockPos {
    let across = w - width / 2;
    let y = (start.y + h) as i32;
    match dir {
        StripMineDirection::North => BlockPos { x: (start.x + across) as i32, y, z: (start.z - l) as i32 },
        StripMineDirection::South => BlockPos { x: (start.x + across) as i32, y, z: (start.z + l) as i32 },
        StripMineDirection::East => BlockPos { x: (start.x + l) as i32, y, z: (start.z + across) as i32 },
        StripMineDirection::West => BlockPos { x: (start.x - l) as i32, y, z: (start.z + across) as i32 },
    }
}

/// One row across the strip, at `l` ahead and `h` up.
pub open spec fn strip_row(start: BlockPos, dir: StripMineDirection, l: int, h: int, width: int) -> Seq<BlockPos> {
    Seq::new(width as nat, |w: int| strip_pos(start, dir, l, h, w, width))
}

/// The rows at `l` ahead, from the bottom up to `n` rows.
pub open spec fn strip_slice(start: BlockPos, dir: StripMineDirection, l: int, n: nat, width: int) -> Seq<BlockPos>
    decreases n,
{
    if n == 0 {
        Seq::empty()
    } else {
        strip_slice(start, dir, l, (n - 1) as nat, width) + strip_row(start, dir, l, n - 1, width)
    }
}

/// Every block of a strip, slice by slice from the start, each slice row by
/// row from the bottom, each row across.
pub open spec fn strip_positions(start: BlockPos, dir: StripMineDirection, n: nat, height: nat, width: int) -> Seq<BlockPos>
    decreases n,
{
    if n == 0 {
        Seq::empty()
    } else {
        strip_positions(start, dir, (n - 1) as nat, height, width) + strip_slice(start, dir, n - 1, height, width)
    }
}

/// Every block of the strip has coordinates within `i32`.
pub open spec fn strip_fits(start: BlockPos, length: u32, height: u32, width: u32) -> bool {
    &&& i32::MIN <= start.x - length - width
    &&& start.x + length + width <= i32::MAX
    &&& i32::MIN <= start.z - length - width
    &&& start.z + length + width <= i32::MAX
    &&& start.y + height <= i32::MAX
}

fn strip_pos_exec(start: BlockPos, dir: StripMineDirection, l: u32, h: u32, w: u32, width: u32) -> (r: BlockPos)
    requires
        exists|length: u32, height: u32| l < length && h < height && strip_fits(start, length, height, width),
        w < width,
    ensures
        r == strip_pos(start, dir, l as int, h as int, w as int, width as int),
{
    let across: i64 = w as i64 - (width / 2) as i64;
    let y = (start.y as i64 + h as i64) as i32;
    match dir {
        StripMineDirection::North => BlockPos {
            x: (start.x as i64 + across) as i32,
            y,
            z: (start.z as i64 - l as i64) as i32,
        },
        StripMineDirection::South => BlockPos {
            x: (start.x as i64 + across) as i32,
            y,
            z: (start.z as i64 + l as i64) as i32,
        },
        StripMineDirection::East => BlockPos {
            x: (start.x as i64 + l as i64) as i32,
            y,
            z: (start.z as i64 + across) as i32,
        },
        StripMineDirection::West => BlockPos {
            x: (start.x as i64 - l as i64) as i32,
            y,
            z: (start.z as i64 + across) as i32,
        },
    }
}

/// Every block of a strip mine.
pub fn generate_strip_mine_positions(
    start: BlockPos,
    direction: StripMineDirection,
    length: u32,
    height: u32,
    width: u32,
) -> (r: Vec<BlockPos>)
    requires
        strip_fits(start, length, height, width),
    ensures
        r@ == strip_positions(start, direction, length as nat, height as nat, width as int),
{
    let mut positions: Vec<BlockPos> = Vec::new();
    let mut l: u32 = 0;
    while l < length
        invariant
            l <= length,
            strip_fits(start, length, height, width),
            positions@ == strip_positions(start, direction, l as nat, height as nat, width as int),
        decreases length - l,
    {
        let mut h: u32 = 0;
        while h < height
            invariant
                l < length,
                h <= height,
                strip_fits(start, length, height, width),
                positions@ == strip_positions(start, direction, l as nat, height as nat, width as int)
                    + strip_slice(start, direction, l as int, h as nat, width as int),
            decreases height - h,
        {
            let mut w: u32 = 0;
            while w < width
                invariant
                    l < length,
                    h < height,
                    w <= width,
                    strip_fits(start, length, height, width),
                    positions@ == strip_positions(start, direction, l as nat, height as nat, width as int)
                        + strip_slice(start, direction, l as int, h as nat, width as int)
                        + strip_row(start, direction, l as int, h as int, width as int).take(w as int),
                decreases width - w,
            {
                let p = strip_pos_exec(start, direction, l, h, w, width);
                positions.push(p);
                proof {
                    let row = strip_row(start, direction, l as int, h as int, width as int);
                    assert(row.take(w + 1) == row.take(w as int).push(p));
                }
                w = w + 1;
            }
            proof {
                let row = strip_row(start, direction, l as int, h as int, width as int);
                assert(row.take(width as int) == row);
            }
            h = h + 1;
        }
        l = l + 1;
    }
    positions
}

impl MiningGoal {
    /// The blocks this goal is about: its target or targets, the vein's
    /// blocks, or every block of the strip.
    pub fn get_target_positions(&self) -> (r: Vec<BlockPos>)
        requires
            self matches MiningGoal::StripMine { start, length, height, width, .. } ==> strip_fits(
                *start,
                *length,
                *height,
                *width,
            ),
        ensures
            r@ == match self {
                MiningGoal::SingleBlock { target, .. } => seq![*target],
                MiningGoal::MultipleBlocks { targets, .. } => targets@,
                MiningGoal::OreVein { blocks, .. } => blocks@,
                MiningGoal::StripMine { start, direction, length, height, width } => strip_positions(
                    *start,
                    *direction,
                    *length as nat,
                    *height as nat,
                    *width as int,
                ),
            },
    {
        match self {
            MiningGoal::SingleBlock { target, .. } => {
                let mut v = Vec::new();
                v.push(*target);
                v
            },
            MiningGoal::MultipleBlocks { targets, .. } => copy_positions(targets),
            MiningGoal::OreVein { blocks, .. } => copy_positions(blocks),
            MiningGoal::StripMine { start, direction, length, height, width } => {
                generate_strip_mine_positions(*start, *direction, *length, *height, *width)
            },
        }
    }
}

pub fn copy_positions(v: &Vec<BlockPos>) -> (r: Vec<BlockPos>)
    ensures
        r@ == v@,
{
    let mut out: Vec<BlockPos> = Vec::new();
    let mut i: usize = 0;
    while i < v.len()
        invariant
            i <= v@.len(),
            out@ == v@.take(i as int),
        decreases v@.len() - i,
    {
        out.push(v[i]);
        proof {
            assert(v@.take(i + 1) == v@.take(i as int).push(v@[i as int]));
        }
        i = i + 1;
    }
    proof {
        assert(v@.take(v@.len() as int) == v@);
    }
    out
}

} // verus!
