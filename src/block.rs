use vstd::prelude::*;

verus! {

/// The block kinds that the planner tells apart.
#[derive(Clone, Copy, Debug, PartialEq, Eq, Hash, Structural)]
pub enum Block {
    Air,
    Stone,
    Deepslate,
    Dirt,
    GrassBlock,
    Bedrock,
    Water,
    Lava,
    Sand,
    RedSand,
    Gravel,
    Anvil,
    ChippedAnvil,
    DamagedAnvil,
    ConcretePowder,
    Seagrass,
    TallSeagrass,
    Kelp,
    KelpPlant,
    SculkVein,
    Tnt,
    OakFence,
    DiamondOre,
    DeepslateDiamondOre,
    IronOre,
    DeepslateIronOre,
    GoldOre,
    DeepslateGoldOre,
    CoalOre,
    DeepslateCoalOre,
    LapisOre,
    DeepslateLapisOre,
    RedstoneOre,
    DeepslateRedstoneOre,
}

/// A block state: the block, its fluid level (0 is a source) and whether it
/// holds water.
#[derive(Clone, Copy, Debug, PartialEq, Eq, Hash, Structural)]
pub struct BlockState {
    pub block: Block,
    pub level: u8,
    pub waterlogged: bool,
}

pub open spec fn has_collision(b: Block) -> bool {
    match b {
        Block::Air | Block::Water | Block::Lava | Block::Seagrass | Block::TallSeagrass
        | Block::Kelp | Block::KelpPlant | Block::SculkVein => false,
        _ => true,
    }
}

/// No collision, and not lava.
pub open spec fn passable(s: BlockState) -> bool {
    !has_collision(s.block) && s.block != Block::Lava
}

/// A full top face that an entity can stand on.
pub open spec fn solid(s: BlockState) -> bool {
    has_collision(s.block) && s.block != Block::OakFence
}

pub open spec fn liquid(s: BlockState) -> bool {
    s.block == Block::Water || s.block == Block::Lava || s.waterlogged
}

pub open spec fn falling(s: BlockState) -> bool {
    match s.block {
        Block::Sand | Block::RedSand | Block::Gravel | Block::Anvil | Block::ChippedAnvil
        | Block::DamagedAnvil | Block::ConcretePowder => true,
        _ => false,
    }
}

impl BlockState {
    /// The default state of a block: a source for fluids, not waterlogged.
    pub fn of(block: Block) -> (r: BlockState)
        ensures
            r == (BlockState { block, level: 0, waterlogged: false }),
    {
        BlockState { block, level: 0, waterlogged: false }
    }

    pub fn air() -> (r: BlockState)
        ensures
            r == (BlockState { block: Block::Air, level: 0, waterlogged: false }),
    {
        BlockState::of(Block::Air)
    }

    /// Water of the given level; 0 is a source block.
    pub fn water(level: u8) -> (r: BlockState)
        ensures
            r == (BlockState { block: Block::Water, level, waterlogged: false }),
    {
        BlockState { block: Block::Water, level, waterlogged: false }
    }

    pub fn is_air(&self) -> (r: bool)
        ensures
            r == (self.block == Block::Air),
    {
        self.block == Block::Air
    }

    pub fn is_passable(&self) -> (r: bool)
        ensures
            r == passable(*self),
    {
        match self.block {
            Block::Air | Block::Water | Block::Seagrass | Block::TallSeagrass | Block::Kelp
            | Block::KelpPlant | Block::SculkVein => true,
            _ => false,
        }
    }

    pub fn is_solid(&self) -> (r: bool)
        ensures
            r == solid(*self),
    {
        match self.block {
            Block::Air | Block::Water | Block::Lava | Block::Seagrass | Block::TallSeagrass
            | Block::Kelp | Block::KelpPlant | Block::SculkVein | Block::OakFence => false,
            _ => true,
        }
    }

    pub fn is_liquid(&self) -> (r: bool)
        ensures
            r == liquid(*self),
    {
        self.block == Block::Water || self.block == Block::Lava || self.waterlogged
    }

    pub fn is_lava(&self) -> (r: bool)
        ensures
            r == (self.block == Block::Lava),
    {
        self.block == Block::Lava
    }

    pub fn is_falling_block(&self) -> (r: bool)
        ensures
            r == falling(*self),
    {
        match self.block {
            Block::Sand | Block::RedSand | Block::Gravel | Block::Anvil | Block::ChippedAnvil
            | Block::DamagedAnvil | Block::ConcretePowder => true,
            _ => false,
        }
    }
}

} // verus!
