use voxel_pathfinder::block::{Block, BlockState};
use voxel_pathfinder::bot::{blacklist_duration, EnhancedMiningBot, FailureReason};
use voxel_pathfinder::goals::Goal;
use voxel_pathfinder::mining_goals::MiningGoal;
use voxel_pathfinder::pos::{BlockPos, ChunkPos};
use voxel_pathfinder::world_scanner::{Chunk, Instance, Palette, Section, WorldScanner};

fn world_with_ore(p: BlockPos, b: Block) -> Instance {
    let air = BlockState::air();
    let mut sections: Vec<Section> =
        (0..24).map(|_| Section { palette: Palette::SingleValue(air), states: vec![air; 4096] }).collect();
    let sy = ((p.y + 64) / 16) as usize;
    let i = (((p.y + 64) % 16) * 256 + p.z * 16 + p.x) as usize;
    sections[sy].states[i] = BlockState::of(b);
    sections[sy].palette = Palette::Global;
    Instance { min_y: -64, height: 384, chunks: vec![Chunk { pos: ChunkPos { x: 0, z: 0 }, sections }] }
}

#[test]
fn failure_durations() {
    assert_eq!(blacklist_duration(FailureReason::Unreachable), 300);
    assert_eq!(blacklist_duration(FailureReason::Protected), 3600);
    assert_eq!(blacklist_duration(FailureReason::Dangerous), 60);
    assert_eq!(blacklist_duration(FailureReason::Other), 120);
}

#[test]
fn bot_mines_until_quantity() {
    let ore = BlockPos::new(4, 0, 4);
    let world = world_with_ore(ore, Block::DeepslateDiamondOre);
    let mut bot = EnhancedMiningBot::new();
    assert!(!bot.is_mining());
    bot.start_diamond_mining(1);
    assert!(bot.is_mining());
    let goal = bot.update(BlockPos::new(0, 0, 0), &world, 0, 0).expect("a goal");
    assert!(matches!(goal, Goal::Mining(MiningGoal::SingleBlock { target, prefer_y_level: Some(16) }) if target == ore));
    assert_eq!(bot.current_target(), Some(ore));
    assert!(bot.update(BlockPos::new(4, 1, 5), &world, 1, 100).is_none());
    assert!(!bot.is_mining());
}

#[test]
fn bot_failure_blacklists() {
    let ore = BlockPos::new(4, 0, 4);
    let world = world_with_ore(ore, Block::IronOre);
    let mut bot = EnhancedMiningBot::new();
    bot.start_iron_mining(None);
    bot.handle_mining_failure(ore, FailureReason::Dangerous, 0);
    assert!(bot.update(BlockPos::new(0, 0, 0), &world, 0, 0).is_none());
    assert!(bot.update(BlockPos::new(0, 0, 0), &world, 0, 60_000).is_some());
    bot.stop_mining();
    assert!(!bot.is_mining());
    assert_eq!(bot.current_target(), None);
}

#[test]
fn comprehensive_mining_finds_any_ore() {
    let ore = BlockPos::new(7, 3, 2);
    let world = world_with_ore(ore, Block::LapisOre);
    let mut bot = EnhancedMiningBot::new();
    bot.start_comprehensive_mining();
    assert!(bot.update(BlockPos::new(0, 3, 0), &world, 0, 0).is_some());
    assert_eq!(bot.current_target(), Some(ore));
}

#[test]
fn cached_locations_age_and_reachability() {
    let mut scanner = WorldScanner::new();
    let diamond = BlockState::of(Block::DiamondOre);
    let a = BlockPos::new(1, 2, 3);
    let b = BlockPos::new(40, 2, 3);
    scanner.cache_ore_locations(diamond, vec![a, b], 1_000);
    assert_eq!(scanner.get_cached_ore_locations(diamond, 500, 1_400), vec![a, b]);
    assert_eq!(scanner.get_cached_ore_locations(diamond, 500, 1_600), Vec::<BlockPos>::new());
    scanner.mark_ore_accessibility(a, false);
    assert_eq!(scanner.get_cached_ore_locations(diamond, 500, 1_400), vec![b]);
    scanner.cleanup_unloaded_chunks(&vec![ChunkPos { x: 0, z: 0 }]);
    assert_eq!(scanner.get_cached_ore_locations(diamond, 500, 1_400), Vec::<BlockPos>::new());
    assert_eq!(scanner.get_cached_ore_locations(BlockState::of(Block::IronOre), 500, 1_400), Vec::<BlockPos>::new());
}
