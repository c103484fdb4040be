use voxel_pathfinder::block::{Block, BlockState};
use voxel_pathfinder::costs::BLOCK_BREAK_ADDITIONAL_PENALTY;
use voxel_pathfinder::goals::{Goal, PriorizedMiningGoal};
use voxel_pathfinder::mining::{best_tool_for, is_waterlogged, BestTool, MiningCache, ToolReport};
use voxel_pathfinder::mining_goals::{generate_strip_mine_positions, MiningGoal, StripMineDirection, NO_TARGET};
use voxel_pathfinder::mining_process::{MiningConfig, MiningProcess, MiningProcessResult};
use voxel_pathfinder::pos::{BlockPos, ChunkPos};
use voxel_pathfinder::vein::{connected_vein, vein_center};
use voxel_pathfinder::world::CachedWorld;
use voxel_pathfinder::world_scanner::{Chunk, Instance, Palette, ScanRequest, Section, WorldScanner};

fn air_section() -> Section {
    Section { palette: Palette::SingleValue(BlockState::air()), states: vec![BlockState::air(); 4096] }
}

/// A world of one chunk column at the origin, from height -64 up 384
/// blocks, holding the given blocks.
fn instance_with(blocks: &[(BlockPos, BlockState)]) -> Instance {
    let mut sections: Vec<Section> = (0..24).map(|_| air_section()).collect();
    for (p, s) in blocks {
        let sy = ((p.y + 64) / 16) as usize;
        let i = (((p.y + 64) % 16) * 256 + p.z * 16 + p.x) as usize;
        let sec = &mut sections[sy];
        sec.states[i] = *s;
        let mut states = match &sec.palette {
            Palette::SingleValue(v) => vec![*v],
            Palette::Linear(v) => v.clone(),
            _ => Vec::new(),
        };
        if !states.contains(s) {
            states.push(*s);
        }
        sec.palette = Palette::Linear(states);
    }
    Instance { min_y: -64, height: 384, chunks: vec![Chunk { pos: ChunkPos { x: 0, z: 0 }, sections }] }
}

fn diamond_config() -> MiningConfig {
    MiningConfig {
        max_mining_distance: 50,
        max_ore_locations: 100,
        scan_interval_seconds: 5,
        legit_mining: true,
        prefer_y_levels: Some((50, 70)),
        blacklist_duration_seconds: 300,
        vein_detection_enabled: true,
        vein_max_distance_tenths: 30,
    }
}

#[test]
fn test_enhanced_mining_pathfinding_simulation() {
    let ore_pos = BlockPos::new(10, 64, 10);
    let start_block_pos = BlockPos::new(0, 64, 0);
    let _world_scanner = WorldScanner::new();
    let _mining_cache = MiningCache::new(None);
    let mining_process = MiningProcess::new(diamond_config(), None);

    let single_block_goal = MiningGoal::SingleBlock { target: ore_pos, prefer_y_level: Some(64) };
    let distance_to_ore = single_block_goal.heuristic(start_block_pos);
    assert_eq!(distance_to_ore, 200);
    assert!(single_block_goal.success(ore_pos), "Should be successful when at the ore position");
    assert!(!single_block_goal.success(start_block_pos), "Should not be successful when not at the ore position");

    let multiple_targets = vec![ore_pos, BlockPos::new(11, 64, 10), BlockPos::new(12, 64, 10)];
    let multiple_blocks_goal = MiningGoal::MultipleBlocks { targets: multiple_targets.clone(), allow_internal_mining: true };
    let ore_positions = vec![ore_pos, BlockPos::new(11, 64, 10), BlockPos::new(10, 65, 10)];
    let ore_vein_goal = MiningGoal::OreVein { blocks: ore_positions.clone(), center: ore_pos, max_reach_tenths: 40 };
    let strip_goal = MiningGoal::StripMine {
        start: BlockPos::new(0, 63, 0),
        direction: StripMineDirection::East,
        length: 20,
        height: 3,
        width: 1,
    };

    let player_pos = BlockPos::new(5, 64, 5);
    assert_eq!(single_block_goal.heuristic(player_pos), 50);
    assert_eq!(multiple_blocks_goal.heuristic(player_pos), 50);
    assert_eq!(ore_vein_goal.heuristic(player_pos), 50);
    assert_eq!(strip_goal.heuristic(player_pos), 51);

    let mut mining_process_mut = mining_process;
    let blacklist_pos = BlockPos::new(999, 999, 999);
    mining_process_mut.blacklist_position(blacklist_pos, 60, 0);

    let target_pos = ore_pos;
    let dx = (target_pos.x - start_block_pos.x).abs();
    let dy = (target_pos.y - start_block_pos.y).abs();
    let dz = (target_pos.z - start_block_pos.z).abs();
    let manhattan_distance = dx + dy + dz;
    assert_eq!(manhattan_distance as u64, start_block_pos.manhattan_to(target_pos));

    let mut path_positions = Vec::new();
    let mut current = start_block_pos;
    while current != target_pos && path_positions.len() < 50 {
        path_positions.push(current);
        let next_x = if current.x < target_pos.x {
            current.x + 1
        } else if current.x > target_pos.x {
            current.x - 1
        } else {
            current.x
        };
        let next_z = if current.z < target_pos.z {
            current.z + 1
        } else if current.z > target_pos.z {
            current.z - 1
        } else {
            current.z
        };
        current = BlockPos::new(next_x, 64, next_z);
    }
    path_positions.push(target_pos);
    assert_eq!(path_positions.len(), 11);
}

#[test]
fn test_mining_goal_priority_system() {
    let ore_pos1 = BlockPos::new(10, 64, 10);
    let ore_pos2 = BlockPos::new(20, 64, 20);
    let diamond_goal = MiningGoal::SingleBlock { target: ore_pos1, prefer_y_level: Some(64) };
    let vein_blocks = vec![ore_pos2, BlockPos::new(21, 64, 20)];
    let vein_goal = MiningGoal::OreVein { blocks: vein_blocks, center: ore_pos2, max_reach_tenths: 30 };
    let strip_goal = MiningGoal::StripMine {
        start: BlockPos::new(0, 63, 0),
        direction: StripMineDirection::East,
        length: 50,
        height: 3,
        width: 1,
    };
    let config = MiningConfig {
        max_mining_distance: 100,
        max_ore_locations: 200,
        scan_interval_seconds: 10,
        legit_mining: true,
        prefer_y_levels: Some((50, 70)),
        blacklist_duration_seconds: 600,
        vein_detection_enabled: true,
        vein_max_distance_tenths: 50,
    };
    let _mining_process = MiningProcess::new(config, None);
    let player_pos = BlockPos::new(5, 64, 5);
    assert_eq!(diamond_goal.heuristic(player_pos), 50);
    assert_eq!(vein_goal.heuristic(player_pos), 450);
    assert_eq!(strip_goal.heuristic(player_pos), 51);
    assert!(diamond_goal.success(ore_pos1), "Diamond goal should succeed at target");
    assert!(!diamond_goal.success(player_pos), "Diamond goal should not succeed at player pos");
    // Only two blocks: a vein goal needs three within reach.
    assert!(!vein_goal.success(ore_pos2));
    assert!(strip_goal.success(BlockPos::new(0, 63, 0)), "Strip goal should succeed at start");
}

#[test]
fn test_world_scanner_mining_integration() {
    let mut world_scanner = WorldScanner::new();
    let scan_center = BlockPos::new(100, 64, 100);
    let ore_locations = vec![BlockPos::new(105, 64, 105), BlockPos::new(110, 63, 108), BlockPos::new(95, 65, 102)];
    world_scanner.cache_ore_locations(BlockState::of(Block::DiamondOre), ore_locations.clone(), 0);
    let y_levels = vec![64i32, 63i32, 65i32, 62i32, 66i32];
    let prioritized_levels: Vec<(i32, i32)> = y_levels.iter().map(|&y| (y, (y - 64i32).abs())).collect();
    assert_eq!(prioritized_levels[4], (66, 2));
    // A world from -64 up 384 blocks, band 50..=70: sections 7 and 8 overlap
    // it, the player's section 8 first; then the others bottom to top.
    let sections = world_scanner.get_prioritized_y_sections(-64, 384, scan_center.y, Some((50, 70)));
    assert_eq!(sections.len(), 24);
    assert_eq!(&sections[..4], &[8, 7, 0, 1]);
    assert_eq!(world_scanner.get_prioritized_y_sections(-64, 384, scan_center.y, None), (0..24).collect::<Vec<i32>>());
}

#[test]
fn test_enhanced_mining_system() {
    let _world_scanner = WorldScanner::new();
    let _mining_cache = MiningCache::new(None);
    let target_pos = BlockPos::new(100, 64, 200);
    let single_block_goal = MiningGoal::SingleBlock { target: target_pos, prefer_y_level: None };
    assert!(single_block_goal.success(BlockPos::new(100, 66, 200)));
    let ore_positions = vec![BlockPos::new(100, 64, 200), BlockPos::new(101, 64, 200), BlockPos::new(100, 65, 200)];
    let ore_vein_goal = MiningGoal::OreVein { blocks: ore_positions.clone(), center: BlockPos::new(100, 64, 200), max_reach_tenths: 40 };
    assert!(ore_vein_goal.success(BlockPos::new(100, 66, 200)));
    let strip_goal = MiningGoal::StripMine {
        start: BlockPos::new(0, 64, 0),
        direction: StripMineDirection::East,
        length: 100,
        height: 1,
        width: 1,
    };
    assert_eq!(strip_goal.get_target_positions().len(), 100);
    let mut mining_process = MiningProcess::new(MiningConfig::default(), None);
    mining_process.start_mining(vec![BlockState::of(Block::DiamondOre), BlockState::of(Block::DeepslateDiamondOre)], Some(64));
    assert!(mining_process.is_active());
}

#[test]
fn mining_single_diamond() {
    let ore = BlockPos::new(10, 64, 10);
    let world = instance_with(&[(ore, BlockState::of(Block::DiamondOre))]);
    let mut process = MiningProcess::new(MiningConfig::default(), None);
    process.start_mining(vec![BlockState::of(Block::DiamondOre), BlockState::of(Block::DeepslateDiamondOre)], Some(1));
    let start = BlockPos::new(0, 64, 0);
    match process.update(start, &world, 0, 0) {
        MiningProcessResult::GoalUpdated(goal) => {
            assert!(matches!(goal, Goal::Mining(MiningGoal::SingleBlock { target, .. }) if target == ore));
            assert!(goal.success(BlockPos::new(10, 65, 12)));
            assert!(!goal.success(start));
        },
        other => panic!("expected a goal, got {:?}", other),
    }
    match process.update(BlockPos::new(10, 65, 12), &world, 1, 1000) {
        MiningProcessResult::QuantityReached(n) => assert_eq!(n, 1),
        other => panic!("expected the quantity, got {:?}", other),
    }
}

#[test]
fn no_targets_found_in_empty_world() {
    let world = instance_with(&[]);
    let mut process = MiningProcess::new(MiningConfig::default(), None);
    process.start_mining(vec![BlockState::of(Block::DiamondOre)], None);
    assert!(matches!(process.update(BlockPos::new(0, 64, 0), &world, 0, 0), MiningProcessResult::NoTargetsFound));
}

#[test]
fn blacklisted_ore_is_skipped_until_expiry() {
    let ore = BlockPos::new(3, 10, 3);
    let world = instance_with(&[(ore, BlockState::of(Block::IronOre))]);
    let mut process = MiningProcess::new(MiningConfig::default(), None);
    process.start_mining(vec![BlockState::of(Block::IronOre)], None);
    process.blacklist_position(ore, 300, 1_000);
    assert!(matches!(process.update(BlockPos::new(0, 10, 0), &world, 0, 1_000), MiningProcessResult::NoTargetsFound));
    // The next scan, 10 s later, still skips it.
    assert!(matches!(process.update(BlockPos::new(0, 10, 0), &world, 0, 11_000), MiningProcessResult::NoTargetsFound));
    // At the deadline it is eligible again.
    match process.update(BlockPos::new(0, 10, 0), &world, 0, 301_000) {
        MiningProcessResult::GoalUpdated(goal) => assert!(goal.success(BlockPos::new(3, 11, 3))),
        other => panic!("expected a goal, got {:?}", other),
    }
}

#[test]
fn veins_become_a_prioritised_goal() {
    let ores = [BlockPos::new(2, 5, 2), BlockPos::new(3, 5, 2), BlockPos::new(12, 5, 12), BlockPos::new(12, 6, 12)];
    let blocks: Vec<(BlockPos, BlockState)> = ores.iter().map(|p| (*p, BlockState::of(Block::CoalOre))).collect();
    let world = instance_with(&blocks);
    let mut process = MiningProcess::new(MiningConfig::default(), None);
    process.start_mining(vec![BlockState::of(Block::CoalOre)], None);
    match process.update(BlockPos::new(0, 5, 0), &world, 0, 0) {
        MiningProcessResult::GoalUpdated(Goal::Prioritised(pg)) => {
            assert_eq!(pg.goals.len(), 2);
            for (g, w) in &pg.goals {
                match g {
                    MiningGoal::OreVein { blocks, center, .. } => {
                        assert_eq!(blocks.len(), 2);
                        if blocks.contains(&BlockPos::new(2, 5, 2)) {
                            assert_eq!(*center, BlockPos::new(2, 5, 2));
                            // 2 blocks over one more than the distance sqrt(8):
                            // 2000 / 3.828 = 522 thousandths.
                            assert_eq!(*w, 522);
                        }
                    },
                    _ => panic!("expected vein goals"),
                }
            }
        },
        other => panic!("expected prioritised vein goals, got {:?}", other),
    }
}

#[test]
fn scattered_ores_become_multiple_blocks() {
    let ores = [BlockPos::new(2, 5, 2), BlockPos::new(12, 5, 12)];
    let blocks: Vec<(BlockPos, BlockState)> = ores.iter().map(|p| (*p, BlockState::of(Block::CoalOre))).collect();
    let world = instance_with(&blocks);
    let mut process = MiningProcess::new(MiningConfig::default(), None);
    process.start_mining(vec![BlockState::of(Block::CoalOre)], None);
    match process.update(BlockPos::new(0, 5, 0), &world, 0, 0) {
        MiningProcessResult::GoalUpdated(Goal::Mining(MiningGoal::MultipleBlocks { targets, allow_internal_mining })) => {
            assert_eq!(targets, vec![BlockPos::new(2, 5, 2), BlockPos::new(12, 5, 12)]);
            assert!(!allow_internal_mining);
        },
        other => panic!("expected a multiple-blocks goal, got {:?}", other),
    }
}

#[test]
fn scan_finds_ores_nearest_first() {
    let ores = [BlockPos::new(9, 20, 9), BlockPos::new(1, 20, 1)];
    let blocks: Vec<(BlockPos, BlockState)> = ores.iter().map(|p| (*p, BlockState::of(Block::GoldOre))).collect();
    let world = instance_with(&blocks);
    let mut scanner = WorldScanner::new();
    let request = ScanRequest {
        block_states: vec![BlockState::of(Block::GoldOre)],
        center_pos: BlockPos::new(0, 20, 0),
        max_radius: 16,
        max_results: 10,
        prefer_y_levels: None,
    };
    let r = scanner.scan_for_blocks(&world, request);
    assert_eq!(r.positions, vec![BlockPos::new(1, 20, 1), BlockPos::new(9, 20, 9)]);
    assert!(r.is_complete);
    let capped = ScanRequest {
        block_states: vec![BlockState::of(Block::GoldOre)],
        center_pos: BlockPos::new(0, 20, 0),
        max_radius: 16,
        max_results: 1,
        prefer_y_levels: None,
    };
    let r = scanner.scan_for_blocks(&world, capped);
    assert_eq!(r.positions.len(), 1);
    assert!(!r.is_complete);
}

#[test]
fn band_sections_first_and_top_sections_scanned() {
    // An ore in the topmost section, and a player low in a band far below.
    let ore = BlockPos::new(5, 315, 5);
    let world = instance_with(&[(ore, BlockState::of(Block::GoldOre))]);
    let mut scanner = WorldScanner::new();
    let request = ScanRequest {
        block_states: vec![BlockState::of(Block::GoldOre)],
        center_pos: BlockPos::new(0, -58, 0),
        max_radius: 16,
        max_results: 10,
        prefer_y_levels: Some((-64, -48)),
    };
    let r = scanner.scan_for_blocks(&world, request);
    assert_eq!(r.positions, vec![ore]);
}

fn report(b: Block, index: usize, ticks: u64) -> ToolReport {
    ToolReport { state: BlockState::of(b), best: BestTool { index, ticks } }
}

#[test]
fn break_costs_with_and_without_tools() {
    let mut none = MiningCache::new(None);
    assert_eq!(none.cost_for(BlockState::of(Block::Stone)), None);
    let reports = vec![report(Block::Dirt, 0, 3), report(Block::Stone, 1, 25), report(Block::Deepslate, 1, 2_000_000)];
    let mut cache = MiningCache::new(Some(reports.clone()));
    assert_eq!(cache.cost_for(BlockState::of(Block::Stone)), Some(25 * 1000 + BLOCK_BREAK_ADDITIONAL_PENALTY));
    assert_eq!(cache.preferred_tool_for(BlockState::of(Block::Stone)), Some(1));
    assert_eq!(cache.cost_for(BlockState::of(Block::Stone)), Some(27_000));
    // No report: no tool breaks it.
    assert_eq!(cache.cost_for(BlockState::of(Block::Bedrock)), None);
    // Longer than the limit counts as impossible.
    assert_eq!(cache.cost_for(BlockState::of(Block::Deepslate)), None);
    assert_eq!(best_tool_for(&reports, BlockState::of(Block::Dirt)).unwrap().index, 0);
    for b in [Block::Stone, Block::Tnt, Block::Dirt, Block::Water, Block::Bedrock, Block::DiamondOre] {
        if let Some(c) = cache.cost_for(BlockState::of(b)) {
            assert!(c >= BLOCK_BREAK_ADDITIONAL_PENALTY);
        }
    }
}

#[test]
fn sequence_cost_counts_tool_changes() {
    let mut cache = MiningCache::new(Some(vec![report(Block::Dirt, 0, 3), report(Block::Stone, 1, 30)]));
    let mut world = CachedWorld::new();
    world.set_block_state(BlockPos::new(0, 0, 0), BlockState::of(Block::Dirt));
    world.set_block_state(BlockPos::new(1, 0, 0), BlockState::of(Block::Stone));
    let blocks = [BlockPos::new(0, 0, 0), BlockPos::new(1, 0, 0)];
    // dirt: 3 ticks + 2; stone: 30 ticks + 2; two tool changes of one tick.
    assert_eq!(cache.sequence_cost(&blocks, &world), Some(5000 + 32000 + 2000));
    world.set_block_state(BlockPos::new(2, 0, 0), BlockState::of(Block::Bedrock));
    let with_bedrock = [BlockPos::new(0, 0, 0), BlockPos::new(2, 0, 0)];
    assert_eq!(cache.sequence_cost(&with_bedrock, &world), None);
}

#[test]
fn avoid_list_expires() {
    let mut cache = MiningCache::new(None);
    let p = BlockPos::new(1, 2, 3);
    cache.mark_block_inaccessible(p, 10, 5_000);
    assert!(cache.should_avoid_block(p, 14_999));
    assert!(!cache.should_avoid_block(p, 15_000));
    cache.cleanup_avoid_list(15_000);
    assert!(!cache.should_avoid_block(p, 0));
    assert!(cache.is_falling_block(BlockState::of(Block::Gravel)));
    assert!(cache.is_liquid(BlockState::of(Block::Lava)));
    assert!(!is_waterlogged(BlockState::of(Block::Stone)));
}

#[test]
fn vein_flood_fill_and_center() {
    let all = vec![BlockPos::new(0, 0, 0), BlockPos::new(2, 0, 0), BlockPos::new(4, 0, 0), BlockPos::new(9, 0, 0)];
    let v = connected_vein(BlockPos::new(0, 0, 0), &all, 30);
    assert_eq!(v.len(), 3);
    assert!(!v.contains(&BlockPos::new(9, 0, 0)));
    assert_eq!(vein_center(&v), BlockPos::new(2, 0, 0));
    assert_eq!(vein_center(&vec![BlockPos::new(-3, 0, 0), BlockPos::new(0, 0, 0)]), BlockPos::new(-1, 0, 0));
    let goal = MiningGoal::for_ore_vein(BlockPos::new(0, 0, 0), &all, 15);
    match goal {
        MiningGoal::OreVein { blocks, .. } => assert_eq!(blocks, vec![BlockPos::new(0, 0, 0)]),
        _ => panic!("expected a vein goal"),
    }
}

#[test]
fn strip_positions_are_centered() {
    let p = generate_strip_mine_positions(BlockPos::new(0, 10, 0), StripMineDirection::North, 2, 1, 3);
    assert_eq!(
        p,
        vec![
            BlockPos::new(-1, 10, 0),
            BlockPos::new(0, 10, 0),
            BlockPos::new(1, 10, 0),
            BlockPos::new(-1, 10, -1),
            BlockPos::new(0, 10, -1),
            BlockPos::new(1, 10, -1),
        ]
    );
}

#[test]
fn multiple_blocks_goal_rules() {
    let targets = vec![BlockPos::new(0, 0, 0), BlockPos::new(10, 0, 0)];
    let outside = MiningGoal::for_scattered_blocks(targets.clone(), false);
    assert!(!outside.success(BlockPos::new(0, 0, 0)));
    assert!(outside.success(BlockPos::new(0, 2, 0)));
    let inside = MiningGoal::for_scattered_blocks(targets, true);
    assert!(inside.success(BlockPos::new(0, 0, 0)));
    let empty = MiningGoal::for_scattered_blocks(Vec::new(), true);
    assert_eq!(empty.heuristic(BlockPos::new(0, 0, 0)), NO_TARGET);
}

#[test]
fn prioritised_goal_takes_least_weighted_heuristic() {
    let a = MiningGoal::SingleBlock { target: BlockPos::new(10, 0, 0), prefer_y_level: None };
    let b = MiningGoal::SingleBlock { target: BlockPos::new(0, 0, 3), prefer_y_level: None };
    let pg = PriorizedMiningGoal { goals: vec![(a, 1000), (b, 500)] };
    // 100 * 1000 against 9 * 500.
    assert_eq!(pg.heuristic(BlockPos::new(0, 0, 0)), 4500);
    assert!(pg.success(BlockPos::new(0, 0, 1)));
    assert!(!pg.success(BlockPos::new(0, 30, 0)));
}
