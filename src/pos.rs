use vstd::prelude::*;

verus! {

/// An integer voxel coordinate.
#[derive(Clone, Copy, Debug, PartialEq, Eq, Hash, Structural)]
pub struct BlockPos {
    pub x: i32,
    pub y: i32,
    pub z: i32,
}

/// The coordinate of a 16x16 column of blocks.
#[derive(Clone, Copy, Debug, PartialEq, Eq, Hash, Structural)]
pub struct ChunkPos {
    pub x: i32,
    pub z: i32,
}

/// Squared Euclidean distance between two positions.
pub open spec fn dist_sq(a: BlockPos, b: BlockPos) -> int {
    (a.x - b.x) * (a.x - b.x) + (a.y - b.y) * (a.y - b.y) + (a.z - b.z) * (a.z - b.z)
}

pub open spec fn abs(v: int) -> int {
    if v < 0 { -v } else { v }
}

/// Manhattan distance between two positions.
pub open spec fn manhattan(a: BlockPos, b: BlockPos) -> int {
    abs(a.x - b.x) + abs(a.y - b.y) + abs(a.z - b.z)
}

/// Whether the offset of `p` by `(dx, dy, dz)` stays within `i32`.
pub open spec fn offset_fits(p: BlockPos, dx: int, dy: int, dz: int) -> bool {
    i32::MIN <= p.x + dx <= i32::MAX && i32::MIN <= p.y + dy <= i32::MAX && i32::MIN <= p.z + dz
        <= i32::MAX
}

pub open spec fn offset_spec(p: BlockPos, dx: int, dy: int, dz: int) -> BlockPos {
    BlockPos { x: (p.x + dx) as i32, y: (p.y + dy) as i32, z: (p.z + dz) as i32 }
}

/// Floor division by 16, the chunk coordinate of a block coordinate.
pub open spec fn chunk_coord(v: int) -> int {
    if v >= 0 { v / 16 } else { -((-v + 15) / 16) }
}

pub open spec fn chunk_of(p: BlockPos) -> ChunkPos {
    ChunkPos { x: chunk_coord(p.x as int) as i32, z: chunk_coord(p.z as int) as i32 }
}

fn abs_diff(a: i32, b: i32) -> (r: u64)
    ensures
        r == abs(a - b),
{
    if a >= b {
        (a as i64 - b as i64) as u64
    } else {
        (b as i64 - a as i64) as u64
    }
}

fn chunk_coord_of(v: i32) -> (r: i32)
    ensures
        r == chunk_coord(v as int),
{
    if v >= 0 {
        v / 16
    } else {
        let n: i64 = -(v as i64);
        -(((n + 15) / 16) as i32)
    }
}

impl BlockPos {
    pub fn new(x: i32, y: i32, z: i32) -> (r: BlockPos)
        ensures
            r == (BlockPos { x, y, z }),
    {
        BlockPos { x, y, z }
    }

    /// The position moved by `(dx, dy, dz)`.
    pub fn offset(&self, dx: i32, dy: i32, dz: i32) -> (r: BlockPos)
        requires
            offset_fits(*self, dx as int, dy as int, dz as int),
        ensures
            r == offset_spec(*self, dx as int, dy as int, dz as int),
    {
        BlockPos { x: self.x + dx, y: self.y + dy, z: self.z + dz }
    }

    /// Squared Euclidean distance to `other`.
    pub fn distance_squared_to(&self, other: BlockPos) -> (r: u128)
        ensures
            r == dist_sq(*self, other),
            r <= 0x3_0000_0000_0000_0000u128,
    {
        let dx = abs_diff(self.x, other.x) as u128;
        let dy = abs_diff(self.y, other.y) as u128;
        let dz = abs_diff(self.z, other.z) as u128;
        assert(dx * dx <= 0x1_0000_0000u128 * 0x1_0000_0000u128) by (nonlinear_arith)
            requires dx <= 0x1_0000_0000u128;
        assert(dy * dy <= 0x1_0000_0000u128 * 0x1_0000_0000u128) by (nonlinear_arith)
            requires dy <= 0x1_0000_0000u128;
        assert(dz * dz <= 0x1_0000_0000u128 * 0x1_0000_0000u128) by (nonlinear_arith)
            requires dz <= 0x1_0000_0000u128;
        assert(dx * dx == (self.x - other.x) * (self.x - other.x)) by (nonlinear_arith)
            requires dx == abs(self.x - other.x);
        assert(dy * dy == (self.y - other.y) * (self.y - other.y)) by (nonlinear_arith)
            requires dy == abs(self.y - other.y);
        assert(dz * dz == (self.z - other.z) * (self.z - other.z)) by (nonlinear_arith)
            requires dz == abs(self.z - other.z);
        dx * dx + dy * dy + dz * dz
    }

    /// Manhattan distance to `other`.
    pub fn manhattan_to(&self, other: BlockPos) -> (r: u64)
        ensures
            r == manhattan(*self, other),
    {
        abs_diff(self.x, other.x) + abs_diff(self.y, other.y) + abs_diff(self.z, other.z)
    }

    /// The chunk column that holds this position.
    pub fn chunk(&self) -> (r: ChunkPos)
        ensures
            r == chunk_of(*self),
    {
        ChunkPos { x: chunk_coord_of(self.x), z: chunk_coord_of(self.z) }
    }
}


/// The four horizontal directions, in the order moves are generated.
#[derive(Clone, Copy, Debug, PartialEq, Eq, Hash, Structural)]
pub enum CardinalDirection {
    North,
    East,
    South,
    West,
}

pub open spec fn dir_dx(d: CardinalDirection) -> int {
    match d {
        CardinalDirection::East => 1,
        CardinalDirection::West => -1,
        _ => 0,
    }
}

pub open spec fn dir_dz(d: CardinalDirection) -> int {
    match d {
        CardinalDirection::North => -1,
        CardinalDirection::South => 1,
        _ => 0,
    }
}

impl CardinalDirection {
    pub fn x(&self) -> (r: i32)
        ensures
            r == dir_dx(*self),
    {
        match self {
            CardinalDirection::East => 1,
            CardinalDirection::West => -1,
            _ => 0,
        }
    }

    pub fn z(&self) -> (r: i32)
        ensures
            r == dir_dz(*self),
    {
        match self {
            CardinalDirection::North => -1,
            CardinalDirection::South => 1,
            _ => 0,
        }
    }
}

} // verus!
