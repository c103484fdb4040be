//! A read view of the world's block states for one plan.
use vstd::prelude::*;
use crate::pos::{BlockPos, offset_spec};
use crate::block::{BlockState, Block, passable, solid};

verus! {

/// The largest coordinate magnitude at which moves are generated, so that
/// every neighbour that a move inspects is still a valid position.
pub const COORD_LIMIT: i32 = 0x3fff_ffff;

pub open spec fn in_limits(p: BlockPos) -> bool {
    -COORD_LIMIT <= p.x <= COORD_LIMIT && -COORD_LIMIT <= p.y <= COORD_LIMIT && -COORD_LIMIT
        <= p.z <= COORD_LIMIT
}

/// The largest coordinate magnitude of a node whose moves are generated:
/// every block that a move inspects is then within `COORD_LIMIT`.
pub const NODE_LIMIT: i32 = 0x3fff_ffdf;

pub open spec fn node_ok(p: BlockPos) -> bool {
    -NODE_LIMIT <= p.x <= NODE_LIMIT && -NODE_LIMIT <= p.y <= NODE_LIMIT && -NODE_LIMIT <= p.z
        <= NODE_LIMIT
}

/// Within 16 of `COORD_LIMIT`: the few blocks above and below still are.
pub open spec fn near_ok(p: BlockPos) -> bool {
    -(COORD_LIMIT - 16) <= p.x <= COORD_LIMIT - 16 && -(COORD_LIMIT - 16) <= p.y <= COORD_LIMIT
        - 16 && -(COORD_LIMIT - 16) <= p.z <= COORD_LIMIT - 16
}

pub open spec fn up(p: BlockPos, n: int) -> BlockPos {
    offset_spec(p, 0, n, 0)
}

pub open spec fn air_state() -> BlockState {
    BlockState { block: Block::Air, level: 0, waterlogged: false }
}

/// The state at `p` after the writes in `s`, the latest first; air where none.
pub open spec fn lookup(s: Seq<(BlockPos, BlockState)>, p: BlockPos) -> BlockState
    decreases s.len(),
{
    if s.len() == 0 {
        air_state()
    } else if s.last().0 == p {
        s.last().1
    } else {
        lookup(s.drop_last(), p)
    }
}

/// Block states by position; positions never written hold air.
pub struct CachedWorld {
    entries: Vec<(BlockPos, BlockState)>,
}

impl CachedWorld {
    /// The state at `p`.
    pub closed spec fn block_at(&self, p: BlockPos) -> BlockState {
        lookup(self.entries@, p)
    }

    /// An entity can occupy `p`: the block and the one above are passable.
    pub open spec fn body_fits(&self, p: BlockPos) -> bool {
        passable(self.block_at(p)) && passable(self.block_at(up(p, 1)))
    }

    /// An entity can stand at `p`: it fits, and the block below holds it up
    /// or it swims in water.
    pub open spec fn standable(&self, p: BlockPos) -> bool {
        self.body_fits(p) && (solid(self.block_at(up(p, -1))) || self.block_at(p).block
            == Block::Water)
    }

    /// A world of air.
    pub fn new() -> (r: CachedWorld)
        ensures
            forall|p: BlockPos| r.block_at(p) == air_state(),
    {
        CachedWorld { entries: Vec::new() }
    }

    pub fn set_block_state(&mut self, p: BlockPos, s: BlockState)
        ensures
            forall|q: BlockPos|
                final(self).block_at(q) == if q == p {
                    s
                } else {
                    old(self).block_at(q)
                },
    {
        self.entries.push((p, s));
        proof {
            assert(self.entries@.drop_last() == old(self).entries@);
        }
    }

    pub fn get_block_state(&self, p: BlockPos) -> (r: BlockState)
        ensures
            r == self.block_at(p),
    {
        let mut i = self.entries.len();
        proof {
            assert(self.entries@.subrange(0, i as int) == self.entries@);
        }
        while i > 0
            invariant
                i <= self.entries.len(),
                lookup(self.entries@, p) == lookup(self.entries@.subrange(0, i as int), p),
            decreases i,
        {
            let e = self.entries[i - 1];
            proof {
                let s = self.entries@.subrange(0, i as int);
                assert(s.drop_last() == self.entries@.subrange(0, i - 1));
                assert(s.last() == e);
            }
            if e.0 == p {
                return e.1;
            }
            i = i - 1;
        }
        BlockState::air()
    }

    /// The block at `p` has no collision and is not lava.
    pub fn is_block_passable(&self, p: BlockPos) -> (r: bool)
        ensures
            r == passable(self.block_at(p)),
    {
        self.get_block_state(p).is_passable()
    }

    pub fn is_block_solid(&self, p: BlockPos) -> (r: bool)
        ensures
            r == solid(self.block_at(p)),
    {
        self.get_block_state(p).is_solid()
    }

    /// An entity fits at `p`.
    pub fn is_passable(&self, p: BlockPos) -> (r: bool)
        requires
            in_limits(p),
        ensures
            r == self.body_fits(p),
    {
        self.is_block_passable(p) && self.is_block_passable(p.offset(0, 1, 0))
    }

    /// An entity can stand at `p`.
    pub fn is_standable(&self, p: BlockPos) -> (r: bool)
        requires
            in_limits(p),
        ensures
            r == self.standable(p),
    {
        self.is_passable(p) && (self.is_block_solid(p.offset(0, -1, 0))
            || self.get_block_state(p).block == Block::Water)
    }
}

} // verus!
