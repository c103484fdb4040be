use voxel_pathfinder::block::{Block, BlockState};
use voxel_pathfinder::moves::{Edge, MoveKind};
use voxel_pathfinder::pos::BlockPos;
use voxel_pathfinder::water::{
    calculate_swimming_cost, classify_water, estimate_air_consumption, has_nearby_air_access, is_water_navigable,
    is_water_safe, water_entry_moves, water_moves, SwimmingState, WaterType,
};
use voxel_pathfinder::world::CachedWorld;

#[test]
fn tests_test_water_classification() {
    let still_water = BlockState::of(Block::Water);
    assert_eq!(classify_water(still_water), Some(WaterType::StillWater));
    let air = BlockState::air();
    assert_eq!(classify_water(air), None);
}

#[test]
fn water_tests_test_water_classification() {
    let still_water = BlockState::of(Block::Water);
    assert_eq!(classify_water(still_water), Some(WaterType::StillWater));
    let air = BlockState::air();
    assert_eq!(classify_water(air), None);
}

#[test]
fn test_water_passable() {
    let mut world = CachedWorld::new();
    world.set_block_state(BlockPos::new(0, 0, 0), BlockState::of(Block::Water));
    world.set_block_state(BlockPos::new(0, 1, 0), BlockState::of(Block::Water));
    assert!(world.is_block_passable(BlockPos::new(0, 0, 0)));
    assert!(world.is_block_passable(BlockPos::new(0, 1, 0)));
    assert!(world.is_passable(BlockPos::new(0, 0, 0)));
}

#[test]
fn test_water_pathfinding_passable() {
    let mut world = CachedWorld::new();
    world.set_block_state(BlockPos::new(0, 0, 0), BlockState::of(Block::Water));
    world.set_block_state(BlockPos::new(0, 1, 0), BlockState::of(Block::Water));
    assert!(world.is_block_passable(BlockPos::new(0, 0, 0)));
    assert!(world.is_block_passable(BlockPos::new(0, 1, 0)));
    assert!(world.is_passable(BlockPos::new(0, 0, 0)));
}

fn standing_water_world() -> CachedWorld {
    let mut world = CachedWorld::new();
    world.set_block_state(BlockPos::new(0, 0, 0), BlockState::of(Block::Stone));
    world.set_block_state(BlockPos::new(0, 1, 0), BlockState::of(Block::Water));
    world.set_block_state(BlockPos::new(0, 2, 0), BlockState::of(Block::Water));
    world
}

#[test]
fn tests_test_water_standable() {
    let world = standing_water_world();
    assert!(world.is_standable(BlockPos::new(0, 1, 0)));
    assert!(world.is_standable(BlockPos::new(0, 2, 0)));
}

#[test]
fn water_tests_test_water_standable() {
    let world = standing_water_world();
    assert!(world.is_standable(BlockPos::new(0, 1, 0)));
    assert!(world.is_standable(BlockPos::new(0, 2, 0)));
}

#[test]
fn classification_of_each_kind() {
    assert_eq!(classify_water(BlockState::water(3)), Some(WaterType::FlowingWater));
    assert_eq!(classify_water(BlockState::of(Block::Kelp)), Some(WaterType::StillWater));
    let fence = BlockState { block: Block::OakFence, level: 0, waterlogged: true };
    assert_eq!(classify_water(fence), Some(WaterType::Waterlogged));
    assert_eq!(classify_water(BlockState::of(Block::Stone)), None);
    assert!(is_water_navigable(WaterType::StillWater));
    assert!(is_water_navigable(WaterType::Waterlogged));
    assert!(!is_water_navigable(WaterType::FlowingWater));
    assert!(!is_water_navigable(WaterType::Dangerous));
}

#[test]
fn lava_beside_water_is_unsafe() {
    let mut world = CachedWorld::new();
    world.set_block_state(BlockPos::new(0, 0, 0), BlockState::of(Block::Water));
    assert!(is_water_safe(&world, BlockPos::new(0, 0, 0)));
    world.set_block_state(BlockPos::new(1, 0, 0), BlockState::of(Block::Lava));
    assert!(!is_water_safe(&world, BlockPos::new(0, 0, 0)));
}

#[test]
fn air_access_within_reach() {
    let mut world = CachedWorld::new();
    for y in 0..3 {
        world.set_block_state(BlockPos::new(0, y, 0), BlockState::of(Block::Water));
    }
    // Water at heights 0..=2, air from 3 up.
    assert!(has_nearby_air_access(&world, BlockPos::new(0, 0, 0), 3));
    assert!(!has_nearby_air_access(&world, BlockPos::new(0, 0, 0), 2));
    world.set_block_state(BlockPos::new(0, 2, 0), BlockState::of(Block::Stone));
    assert!(!has_nearby_air_access(&world, BlockPos::new(0, 0, 0), 3));
}

#[test]
fn air_used_only_when_submerged() {
    let mut world = CachedWorld::new();
    for x in 0..2 {
        for y in 0..3 {
            world.set_block_state(BlockPos::new(x, y, 0), BlockState::of(Block::Water));
        }
    }
    // A swim of 8.339 ticks uses 9 ticks of air under water.
    assert_eq!(estimate_air_consumption(BlockPos::new(0, 0, 0), BlockPos::new(1, 0, 0), 8339, &world), 9);
    assert_eq!(estimate_air_consumption(BlockPos::new(0, 0, 0), BlockPos::new(1, 0, 0), 0, &world), 1);
    assert_eq!(estimate_air_consumption(BlockPos::new(0, 2, 0), BlockPos::new(1, 2, 0), 8339, &world), 0);
}

#[test]
fn swimming_cost_formula() {
    let world = CachedWorld::new();
    let a = BlockPos::new(0, 0, 0);
    let b = BlockPos::new(1, 0, 0);
    let full = SwimmingState::default();
    assert_eq!(calculate_swimming_cost(&world, a, b, full), 8339);
    let low = SwimmingState { consecutive_swim_moves: 0, estimated_air: 60, is_sprint_swimming: false };
    // 10000 * (240 / 300)^2 = 6400 added.
    assert_eq!(calculate_swimming_cost(&world, a, b, low), 8339 + 6400);
    let critical = SwimmingState { consecutive_swim_moves: 0, estimated_air: 20, is_sprint_swimming: false };
    // 10000 * (280 / 300)^2 = 8711 added, and the drowning penalty.
    assert_eq!(calculate_swimming_cost(&world, a, b, critical), 8339 + 8711 + 50000);
    let negative = SwimmingState { consecutive_swim_moves: 0, estimated_air: -300, is_sprint_swimming: false };
    // 10000 * (1 - (-1))^2 = 40000 added.
    assert_eq!(calculate_swimming_cost(&world, a, b, negative), 8339 + 40000 + 50000);
}

#[test]
fn sprint_swimming_when_submerged() {
    let mut world = CachedWorld::new();
    for x in 0..2 {
        for y in 0..3 {
            world.set_block_state(BlockPos::new(x, y, 0), BlockState::of(Block::Water));
        }
    }
    let st = SwimmingState { consecutive_swim_moves: 3, estimated_air: 300, is_sprint_swimming: true };
    assert_eq!(calculate_swimming_cost(&world, BlockPos::new(0, 0, 0), BlockPos::new(1, 0, 0), st), 6949);
}

#[test]
fn surfacing_restores_air() {
    let mut world = CachedWorld::new();
    for x in 0..3 {
        for y in 0..6 {
            world.set_block_state(BlockPos::new(x, y, 0), BlockState::of(Block::Water));
        }
    }
    let st = SwimmingState { consecutive_swim_moves: 5, estimated_air: 40, is_sprint_swimming: true };
    let deep = st.after_move(&world, BlockPos::new(0, 0, 0), BlockPos::new(1, 0, 0), 1000);
    assert_eq!(deep.estimated_air, 39);
    assert_eq!(deep.consecutive_swim_moves, 6);
    let shallow = st.after_move(&world, BlockPos::new(0, 3, 0), BlockPos::new(1, 3, 0), 8339);
    assert_eq!(shallow.estimated_air, 300);
}

#[test]
fn air_never_runs_out_near_the_surface() {
    // A channel two deep: every node has air within three blocks above.
    let mut world = CachedWorld::new();
    for x in 0..400 {
        world.set_block_state(BlockPos::new(x, 0, 0), BlockState::of(Block::Water));
        world.set_block_state(BlockPos::new(x, 1, 0), BlockState::of(Block::Water));
    }
    let mut st = SwimmingState::default();
    for x in 0..399 {
        st = st.after_move(&world, BlockPos::new(x, 0, 0), BlockPos::new(x + 1, 0, 0), 8339);
        assert!(st.estimated_air > 20);
    }
}

#[test]
fn ascend_bonus_with_air_three_up() {
    // Water at the target and two blocks above it, air three above.
    let mut world = CachedWorld::new();
    for y in 0..3 {
        world.set_block_state(BlockPos::new(0, y, 0), BlockState::of(Block::Water));
        world.set_block_state(BlockPos::new(1, y + 1, 0), BlockState::of(Block::Water));
    }
    world.set_block_state(BlockPos::new(0, 3, 0), BlockState::of(Block::Stone));
    let mut edges: Vec<Edge> = Vec::new();
    water_moves(&world, BlockPos::new(0, 0, 0), &mut edges);
    let up = edges.iter().find(|e| e.kind == MoveKind::WaterAscend && e.target == BlockPos::new(1, 1, 0)).unwrap();
    let base = calculate_swimming_cost(&world, BlockPos::new(0, 0, 0), BlockPos::new(1, 1, 0), SwimmingState {
        consecutive_swim_moves: 2,
        estimated_air: 300,
        is_sprint_swimming: false,
    });
    assert_eq!(up.cost, base * 13 / 10 * 7 / 10);
}

#[test]
fn swim_moves_in_a_pool() {
    let mut world = CachedWorld::new();
    for x in 0..3 {
        world.set_block_state(BlockPos::new(x, 0, 0), BlockState::of(Block::Stone));
        world.set_block_state(BlockPos::new(x, 1, 0), BlockState::of(Block::Water));
    }
    let mut edges: Vec<Edge> = Vec::new();
    water_moves(&world, BlockPos::new(1, 1, 0), &mut edges);
    let traverse: Vec<&Edge> = edges.iter().filter(|e| e.kind == MoveKind::WaterTraverse).collect();
    // East and west are water; north and south are open air at the surface.
    assert_eq!(traverse.len(), 4);
    let east = traverse.iter().find(|e| e.target == BlockPos::new(2, 1, 0)).unwrap();
    // Swimming cost with air above, less 10% for air access.
    assert_eq!(east.cost, 8339 * 9 / 10);
    let north = traverse.iter().find(|e| e.target == BlockPos::new(1, 1, -1)).unwrap();
    assert_eq!(north.cost, 1500 * 9 / 10);
}

#[test]
fn entry_from_land() {
    let mut world = CachedWorld::new();
    world.set_block_state(BlockPos::new(1, 0, 0), BlockState::of(Block::Water));
    let mut edges: Vec<Edge> = Vec::new();
    water_entry_moves(&world, BlockPos::new(0, 0, 0), &mut edges);
    assert_eq!(edges.len(), 1);
    assert_eq!(edges[0].target, BlockPos::new(1, 0, 0));
    assert_eq!(edges[0].cost, 2000);
    world.set_block_state(BlockPos::new(2, 0, 0), BlockState::of(Block::Lava));
    let mut none: Vec<Edge> = Vec::new();
    water_entry_moves(&world, BlockPos::new(0, 0, 0), &mut none);
    assert!(none.is_empty());
}
