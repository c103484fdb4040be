//! A mining bot around the mining process: what to mine, what to do on each
//! tick, and how long to stay away from a place where mining failed.
use vstd::prelude::*;
use crate::pos::BlockPos;
use crate::block::{Block, BlockState};
use crate::deadlines::after_secs;
use crate::goals::Goal;
use crate::mining_goals::MiningGoal;
use crate::mining_process::{MiningConfig, MiningProcess, MiningProcessResult, nearest_targets, goal_for, scan_found_all};
use crate::world_scanner::Instance;

verus! {

/// Why mining at a position failed.
#[derive(Clone, Copy, Debug, PartialEq, Eq, Hash, Structural)]
pub enum FailureReason {
    Unreachable,
    Protected,
    Dangerous,
    Other,
}

/// How long, in seconds, a failure keeps a position blacklisted: 5 minutes
/// when unreachable, an hour when protected, a minute when dangerous, and 2
/// minutes otherwise.
pub open spec fn blacklist_secs(r: FailureReason) -> u64 {
    match r {
        FailureReason::Unreachable => 300,
        FailureReason::Protected => 3600,
        FailureReason::Dangerous => 60,
        FailureReason::Other => 120,
    }
}

pub fn blacklist_duration(reason: FailureReason) -> (r: u64)
    ensures
        r == blacklist_secs(reason),
{
    match reason {
        FailureReason::Unreachable => 300,
        FailureReason::Protected => 3600,
        FailureReason::Dangerous => 60,
        FailureReason::Other => 120,
    }
}

/// The first block a goal is about, if any.
pub open spec fn first_target(g: Goal) -> Option<BlockPos> {
    match g {
        Goal::Block(p) => Some(p),
        Goal::Mining(MiningGoal::SingleBlock { target, .. }) => Some(target),
        Goal::Mining(MiningGoal::MultipleBlocks { targets, .. }) => if targets@.len() > 0 {
            Some(targets@[0])
        } else {
            None
        },
        Goal::Mining(MiningGoal::OreVein { blocks, .. }) => if blocks@.len() > 0 {
            Some(blocks@[0])
        } else {
            None
        },
        Goal::Mining(MiningGoal::StripMine { start, .. }) => Some(start),
        Goal::Prioritised(_) => None,
    }
}

fn goal_first_target(g: &Goal) -> (r: Option<BlockPos>)
    ensures
        r == first_target(*g),
{
    match g {
        Goal::Block(p) => Some(*p),
        Goal::Mining(MiningGoal::SingleBlock { target, .. }) => Some(*target),
        Goal::Mining(MiningGoal::MultipleBlocks { targets, .. }) => if targets.len() > 0 {
            Some(targets[0])
        } else {
            None
        },
        Goal::Mining(MiningGoal::OreVein { blocks, .. }) => if blocks.len() > 0 {
            Some(blocks[0])
        } else {
            None
        },
        Goal::Mining(MiningGoal::StripMine { start, .. }) => Some(*start),
        Goal::Prioritised(_) => None,
    }
}

/// The ores worth mining: diamond, iron, gold, coal, lapis and redstone,
/// each in stone and in deepslate.
pub open spec fn valuable_ores() -> Seq<BlockState> {
    seq![
        BlockState { block: Block::DiamondOre, level: 0, waterlogged: false },
        BlockState { block: Block::DeepslateDiamondOre, level: 0, waterlogged: false },
        BlockState { block: Block::IronOre, level: 0, waterlogged: false },
        BlockState { block: Block::DeepslateIronOre, level: 0, waterlogged: false },
        BlockState { block: Block::GoldOre, level: 0, waterlogged: false },
        BlockState { block: Block::DeepslateGoldOre, level: 0, waterlogged: false },
        BlockState { block: Block::CoalOre, level: 0, waterlogged: false },
        BlockState { block: Block::DeepslateCoalOre, level: 0, waterlogged: false },
        BlockState { block: Block::LapisOre, level: 0, waterlogged: false },
        BlockState { block: Block::DeepslateLapisOre, level: 0, waterlogged: false },
        BlockState { block: Block::RedstoneOre, level: 0, waterlogged: false },
        BlockState { block: Block::DeepslateRedstoneOre, level: 0, waterlogged: false },
    ]
}

/// A bot that mines with a mining process and remembers its current target.
pub struct EnhancedMiningBot {
    mining_process: MiningProcess,
    current_target: Option<BlockPos>,
}

impl EnhancedMiningBot {
    pub closed spec fn process(&self) -> MiningProcess {
        self.mining_process
    }

    pub closed spec fn target(&self) -> Option<BlockPos> {
        self.current_target
    }

    pub open spec fn wf(&self) -> bool {
        self.process().wf()
    }

    /// A bot that searches 128 blocks around for up to 500 locations every
    /// 15 s, prefers heights -64 to 16, blacklists for 10 minutes and joins
    /// ores up to 4 blocks apart into veins.
    pub fn new() -> (r: EnhancedMiningBot)
        ensures
            r.wf(),
            r.process().settings() == (MiningConfig {
                max_mining_distance: 128,
                max_ore_locations: 500,
                scan_interval_seconds: 15,
                legit_mining: false,
                prefer_y_levels: Some((-64i32, 16i32)),
                blacklist_duration_seconds: 600,
                vein_detection_enabled: true,
                vein_max_distance_tenths: 40,
            }),
            r.process().targets().len() == 0,
            r.target() is None,
    {
        let config = MiningConfig {
            max_mining_distance: 128,
            max_ore_locations: 500,
            scan_interval_seconds: 15,
            legit_mining: false,
            prefer_y_levels: Some((-64, 16)),
            blacklist_duration_seconds: 600,
            vein_detection_enabled: true,
            vein_max_distance_tenths: 40,
        };
        EnhancedMiningBot { mining_process: MiningProcess::new(config, None), current_target: None }
    }

    /// Mines `quantity` diamond ores, in stone or deepslate.
    pub fn start_diamond_mining(&mut self, quantity: u32)
        requires
            old(self).wf(),
        ensures
            final(self).wf(),
            final(self).process().targets() == seq![
                BlockState { block: Block::DiamondOre, level: 0, waterlogged: false },
                BlockState { block: Block::DeepslateDiamondOre, level: 0, waterlogged: false },
            ],
            final(self).process().desired() == Some(quantity),
    {
        let mut blocks: Vec<BlockState> = Vec::new();
        blocks.push(BlockState::of(Block::DiamondOre));
        blocks.push(BlockState::of(Block::DeepslateDiamondOre));
        self.mining_process.start_mining(blocks, Some(quantity));
    }

    /// Mines iron ores, in stone or deepslate, up to `quantity` if given.
    pub fn start_iron_mining(&mut self, quantity: Option<u32>)
        requires
            old(self).wf(),
        ensures
            final(self).wf(),
            final(self).process().targets() == seq![
                BlockState { block: Block::IronOre, level: 0, waterlogged: false },
                BlockState { block: Block::DeepslateIronOre, level: 0, waterlogged: false },
            ],
            final(self).process().desired() == quantity,
    {
        let mut blocks: Vec<BlockState> = Vec::new();
        blocks.push(BlockState::of(Block::IronOre));
        blocks.push(BlockState::of(Block::DeepslateIronOre));
        self.mining_process.start_mining(blocks, quantity);
    }

    /// Mines every valuable ore, with no quantity.
    pub fn start_comprehensive_mining(&mut self)
        requires
            old(self).wf(),
        ensures
            final(self).wf(),
            final(self).process().targets() == valuable_ores(),
            final(self).process().desired() is None,
    {
        let mut blocks: Vec<BlockState> = Vec::new();
        blocks.push(BlockState::of(Block::DiamondOre));
        blocks.push(BlockState::of(Block::DeepslateDiamondOre));
        blocks.push(BlockState::of(Block::IronOre));
        blocks.push(BlockState::of(Block::DeepslateIronOre));
        blocks.push(BlockState::of(Block::GoldOre));
        blocks.push(BlockState::of(Block::DeepslateGoldOre));
        blocks.push(BlockState::of(Block::CoalOre));
        blocks.push(BlockState::of(Block::DeepslateCoalOre));
        blocks.push(BlockState::of(Block::LapisOre));
        blocks.push(BlockState::of(Block::DeepslateLapisOre));
        blocks.push(BlockState::of(Block::RedstoneOre));
        blocks.push(BlockState::of(Block::DeepslateRedstoneOre));
        assert(blocks@ =~= valuable_ores());
        self.mining_process.start_mining(blocks, None);
    }

    /// One tick: the goal to head for, if any. Once the desired quantity is
    /// mined, mining stops. A new goal's first block becomes the current
    /// target.
    pub fn update(&mut self, player_pos: BlockPos, world: &Instance, current_count: u32, now: u64) -> (r: Option<Goal>)
        requires
            old(self).wf(),
        ensures
            final(self).wf(),
            old(self).process().desired() matches Some(d) && current_count >= d ==> r is None
                && final(self).process().targets().len() == 0,
            !(old(self).process().desired() matches Some(d) && current_count >= d) ==> {
                &&& old(self).process().rescan_due(now) ==> scan_found_all(
                    old(self).process(),
                    final(self).process(),
                    *world,
                    player_pos,
                    now,
                )
                &&& (r is Some <==> final(self).process().known().len() > 0)
                &&& r matches Some(g) ==> exists|t: Seq<BlockPos>|
                    nearest_targets(t, final(self).process().known(), player_pos) && goal_for(
                        g,
                        t,
                        player_pos,
                        final(self).process().settings(),
                    )
                &&& r matches Some(g) ==> (first_target(g) is Some ==> final(self).target() == first_target(g))
            },
    {
        let res = self.mining_process.update(player_pos, world, current_count, now);
        let ghost after = self.mining_process;
        match res {
            MiningProcessResult::GoalUpdated(goal) => {
                if let Some(p) = goal_first_target(&goal) {
                    self.current_target = Some(p);
                }
                assert(self.process() == after);
                Some(goal)
            },
            MiningProcessResult::NoTargetsFound => None,
            MiningProcessResult::QuantityReached(_) => {
                self.mining_process.stop();
                None
            },
            MiningProcessResult::Failed(_) => None,
        }
    }

    /// Blacklists `failed_pos` from `now` for as long as the reason asks.
    pub fn handle_mining_failure(&mut self, failed_pos: BlockPos, reason: FailureReason, now: u64)
        requires
            old(self).wf(),
        ensures
            final(self).wf(),
            final(self).process().blacklisted_until(failed_pos) == Some(after_secs(now, blacklist_secs(reason))),
            forall|p: BlockPos| p != failed_pos ==> final(self).process().blacklisted_until(p) == old(self).process().blacklisted_until(p),
    {
        let secs = blacklist_duration(reason);
        self.mining_process.blacklist_position(failed_pos, secs, now);
    }

    pub fn is_mining(&self) -> (r: bool)
        ensures
            r == (self.process().targets().len() > 0),
    {
        self.mining_process.is_active()
    }

    pub fn current_target(&self) -> (r: Option<BlockPos>)
        ensures
            r == self.target(),
    {
        self.current_target
    }

    /// Stops mining and forgets the target.
    pub fn stop_mining(&mut self)
        requires
            old(self).wf(),
        ensures
            final(self).wf(),
            final(self).process().targets().len() == 0,
            final(self).target() is None,
    {
        self.mining_process.stop();
        self.current_target = None;
    }
}

} // verus!
