use voxel_pathfinder::astar::{a_star, PathError, PathfinderTimeout};
use voxel_pathfinder::block::{Block, BlockState};
use voxel_pathfinder::goals::Goal;
use voxel_pathfinder::mining::{BestTool, MiningCache, ToolReport};
use voxel_pathfinder::moves::{MoveCtx, MoveKind};
use voxel_pathfinder::pos::BlockPos;
use voxel_pathfinder::world::CachedWorld;

fn setup_world(solid_blocks: &[BlockPos], extra_blocks: &[(BlockPos, BlockState)]) -> CachedWorld {
    let mut world = CachedWorld::new();
    for p in solid_blocks {
        world.set_block_state(*p, BlockState::of(Block::Stone));
    }
    for (p, s) in extra_blocks {
        world.set_block_state(*p, *s);
    }
    world
}

/// The host inventory's answers: break times with bare hands.
fn hand_reports() -> Vec<ToolReport> {
    [(Block::Stone, 150), (Block::Dirt, 15), (Block::GrassBlock, 18), (Block::SculkVein, 4), (Block::Tnt, 0)]
        .iter()
        .map(|(b, ticks)| ToolReport { state: BlockState::of(*b), best: BestTool { index: 0, ticks: *ticks } })
        .collect()
}

/// Plans from `start` to `end` and returns where the path ends, its cost in
/// thousandths of a tick, and whether it is partial.
fn plan(world: &CachedWorld, start: BlockPos, end: BlockPos, allow_mining: bool) -> (BlockPos, u64, bool) {
    let ctx = MoveCtx::new(allow_mining);
    let mut cache = MiningCache::new(Some(hand_reports()));
    let timeout = PathfinderTimeout { min_nodes: 1_000_000, max_nodes: 5_000_000 };
    let result = a_star(start, &Goal::Block(end), &ctx, world, &mut cache, timeout).expect("a path");
    let last = result.movements.last().map(|e| e.target).unwrap_or(start);
    let total: u64 = result.movements.iter().map(|e| e.cost).sum();
    assert_eq!(total, result.cost);
    (last, result.cost, result.is_partial)
}

fn assert_reaches(world: &CachedWorld, start: BlockPos, goal: BlockPos, ticks: u64, expected: BlockPos, allow_mining: bool) {
    let (last, cost, _) = plan(world, start, goal, allow_mining);
    assert_eq!(last, expected);
    assert!(cost <= ticks * 1000, "cost {} over {} ticks", cost, ticks);
}

#[test]
fn test_simple_forward() {
    let world = setup_world(&[BlockPos::new(0, 70, 0), BlockPos::new(0, 70, 1)], &[]);
    assert_reaches(&world, BlockPos::new(0, 71, 0), BlockPos::new(0, 71, 1), 20, BlockPos::new(0, 71, 1), false);
}

#[test]
fn test_double_diagonal_with_walls() {
    let world = setup_world(
        &[
            BlockPos::new(0, 70, 0),
            BlockPos::new(1, 70, 1),
            BlockPos::new(2, 70, 2),
            BlockPos::new(1, 72, 0),
            BlockPos::new(2, 72, 1),
        ],
        &[],
    );
    assert_reaches(&world, BlockPos::new(0, 71, 0), BlockPos::new(2, 71, 2), 30, BlockPos::new(2, 71, 2), false);
}

#[test]
fn test_jump_with_sideways_momentum() {
    let world = setup_world(
        &[
            BlockPos::new(0, 70, 3),
            BlockPos::new(0, 70, 2),
            BlockPos::new(0, 70, 1),
            BlockPos::new(0, 70, 0),
            BlockPos::new(1, 71, 0),
            BlockPos::new(2, 72, 0),
            BlockPos::new(3, 73, 0),
            BlockPos::new(4, 74, 0),
            BlockPos::new(5, 75, 0),
        ],
        &[],
    );
    assert_reaches(&world, BlockPos::new(0, 71, 3), BlockPos::new(5, 76, 0), 120, BlockPos::new(5, 76, 0), false);
}

#[test]
fn test_parkour_2_block_gap() {
    let world = setup_world(&[BlockPos::new(0, 70, 0), BlockPos::new(0, 70, 3)], &[]);
    assert_reaches(&world, BlockPos::new(0, 71, 0), BlockPos::new(0, 71, 3), 40, BlockPos::new(0, 71, 3), false);
}

#[test]
fn test_descend_and_parkour_2_block_gap() {
    let world = setup_world(
        &[
            BlockPos::new(0, 70, 0),
            BlockPos::new(0, 69, 1),
            BlockPos::new(0, 68, 2),
            BlockPos::new(0, 67, 3),
            BlockPos::new(0, 66, 4),
            BlockPos::new(3, 66, 4),
        ],
        &[],
    );
    assert_reaches(&world, BlockPos::new(0, 71, 0), BlockPos::new(3, 67, 4), 100, BlockPos::new(3, 67, 4), false);
}

#[test]
fn test_small_descend_and_parkour_2_block_gap() {
    let world = setup_world(
        &[
            BlockPos::new(0, 70, 0),
            BlockPos::new(0, 70, 1),
            BlockPos::new(0, 69, 2),
            BlockPos::new(0, 69, 5),
        ],
        &[],
    );
    assert_reaches(&world, BlockPos::new(0, 71, 0), BlockPos::new(0, 70, 5), 40, BlockPos::new(0, 70, 5), false);
}

#[test]
fn test_quickly_descend() {
    let world = setup_world(
        &[
            BlockPos::new(0, 70, 0),
            BlockPos::new(0, 69, 1),
            BlockPos::new(0, 68, 2),
            BlockPos::new(0, 67, 3),
        ],
        &[],
    );
    assert_reaches(&world, BlockPos::new(0, 71, 0), BlockPos::new(0, 68, 3), 60, BlockPos::new(0, 68, 3), false);
}

#[test]
fn test_2_gap_ascend_thrice() {
    let world = setup_world(
        &[
            BlockPos::new(0, 70, 0),
            BlockPos::new(0, 71, 3),
            BlockPos::new(3, 72, 3),
            BlockPos::new(3, 73, 0),
        ],
        &[],
    );
    assert_reaches(&world, BlockPos::new(0, 71, 0), BlockPos::new(3, 74, 0), 60, BlockPos::new(3, 74, 0), false);
}

#[test]
fn test_consecutive_3_gap_parkour() {
    let world = setup_world(
        &[
            BlockPos::new(0, 70, 0),
            BlockPos::new(0, 70, 4),
            BlockPos::new(0, 70, 8),
            BlockPos::new(0, 70, 12),
            BlockPos::new(4, 70, 12),
        ],
        &[],
    );
    assert_reaches(&world, BlockPos::new(0, 71, 0), BlockPos::new(4, 71, 12), 80, BlockPos::new(4, 71, 12), false);
}

#[test]
fn test_jumps_with_more_sideways_momentum() {
    let world = setup_world(
        &[
            BlockPos::new(0, 70, 0),
            BlockPos::new(0, 70, 1),
            BlockPos::new(0, 70, 2),
            BlockPos::new(0, 71, 3),
            BlockPos::new(0, 72, 6),
            BlockPos::new(0, 73, 9),
            BlockPos::new(2, 73, 9),
            BlockPos::new(4, 73, 9),
        ],
        &[],
    );
    assert_reaches(&world, BlockPos::new(0, 71, 0), BlockPos::new(4, 74, 9), 80, BlockPos::new(4, 74, 9), false);
}

#[test]
fn test_mine_through_non_colliding_block() {
    let world = setup_world(
        &[BlockPos::new(0, 71, 1)],
        &[
            (BlockPos::new(0, 71, 0), BlockState::of(Block::SculkVein)),
            (BlockPos::new(0, 70, 0), BlockState::of(Block::GrassBlock)),
            (BlockPos::new(0, 69, 0), BlockState::of(Block::Tnt)),
        ],
    );
    let (last, cost, partial) = plan(&world, BlockPos::new(0, 72, 1), BlockPos::new(0, 69, 0), true);
    assert_eq!(last, BlockPos::new(0, 70, 0));
    assert!(partial);
    assert!(cost <= 200 * 1000);
    // No move of the path enters the TNT, so it is never broken.
    let ctx = MoveCtx::new(true);
    let mut cache = MiningCache::new(Some(hand_reports()));
    let timeout = PathfinderTimeout { min_nodes: 1_000_000, max_nodes: 5_000_000 };
    let r = a_star(BlockPos::new(0, 72, 1), &Goal::Block(BlockPos::new(0, 69, 0)), &ctx, &world, &mut cache, timeout)
        .unwrap();
    assert!(r.movements.iter().all(|e| e.target != BlockPos::new(0, 69, 0) && e.target != BlockPos::new(0, 68, 0)));
}

#[test]
fn test_simple_water_pathfinding() {
    let foundation: Vec<BlockPos> = (0..=3).map(|x| BlockPos::new(x, 69, 0)).collect();
    let water: Vec<(BlockPos, BlockState)> = (0..=3).map(|x| (BlockPos::new(x, 70, 0), BlockState::water(0))).collect();
    let world = setup_world(&foundation, &water);
    assert_reaches(&world, BlockPos::new(0, 70, 0), BlockPos::new(3, 70, 0), 300, BlockPos::new(3, 70, 0), false);
}

#[test]
fn start_at_goal_gives_empty_whole_path() {
    let world = setup_world(&[BlockPos::new(0, 70, 0)], &[]);
    let (last, cost, partial) = plan(&world, BlockPos::new(0, 71, 0), BlockPos::new(0, 71, 0), false);
    assert_eq!(last, BlockPos::new(0, 71, 0));
    assert_eq!(cost, 0);
    assert!(!partial);
}

#[test]
fn no_path_when_nothing_gets_nearer() {
    let world = setup_world(&[BlockPos::new(0, 70, 0)], &[]);
    let ctx = MoveCtx::new(false);
    let mut cache = MiningCache::new(None);
    let timeout = PathfinderTimeout { min_nodes: 1000, max_nodes: 10_000 };
    let r = a_star(BlockPos::new(0, 71, 0), &Goal::Block(BlockPos::new(50, 71, 0)), &ctx, &world, &mut cache, timeout);
    assert_eq!(r.unwrap_err(), PathError::NoPathFound);
}

#[test]
fn partial_path_reports_how_the_search_ended() {
    let world = setup_world(&[BlockPos::new(0, 70, 0), BlockPos::new(1, 70, 0)], &[]);
    let ctx = MoveCtx::new(false);
    let mut cache = MiningCache::new(None);
    let timeout = PathfinderTimeout { min_nodes: 1_000_000, max_nodes: 5_000_000 };
    let r = a_star(BlockPos::new(0, 71, 0), &Goal::Block(BlockPos::new(10, 71, 0)), &ctx, &world, &mut cache, timeout)
        .unwrap();
    assert!(r.is_partial);
    assert!(r.exhausted);
    assert_eq!(r.nodes_expanded, 2);
}

#[test]
fn partial_path_improves_on_start() {
    let world = setup_world(&[BlockPos::new(0, 70, 0), BlockPos::new(1, 70, 0)], &[]);
    let (last, _, partial) = plan(&world, BlockPos::new(0, 71, 0), BlockPos::new(10, 71, 0), false);
    assert!(partial);
    assert_eq!(last, BlockPos::new(1, 71, 0));
}

#[test]
fn simple_forward_is_one_walk() {
    let world = setup_world(&[BlockPos::new(0, 70, 0), BlockPos::new(0, 70, 1)], &[]);
    let ctx = MoveCtx::new(false);
    let mut cache = MiningCache::new(None);
    let timeout = PathfinderTimeout { min_nodes: 1000, max_nodes: 10_000 };
    let r = a_star(BlockPos::new(0, 71, 0), &Goal::Block(BlockPos::new(0, 71, 1)), &ctx, &world, &mut cache, timeout)
        .unwrap();
    assert_eq!(r.movements.len(), 1);
    assert_eq!(r.movements[0].kind, MoveKind::Traverse);
    assert_eq!(r.movements[0].cost, 4633);
}
