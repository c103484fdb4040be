use voxel_pathfinder::costs::{distance_to_ticks, fall_n_blocks_cost_table, jump_one_block_cost, BLOCK, FALL_TABLE_LEN};

#[test]
fn fall_table_matches_distance_to_ticks() {
    let table = fall_n_blocks_cost_table();
    assert_eq!(table.len(), FALL_TABLE_LEN);
    for n in [0u64, 1, 2, 3, 4, 10, 100, 1000, 4096] {
        assert_eq!(table[n as usize], distance_to_ticks(n * BLOCK));
    }
}

#[test]
fn fall_times() {
    assert_eq!(distance_to_ticks(0), 0);
    // Nothing is fallen in tick 0 and 0.0784 blocks in tick 1.
    assert_eq!(distance_to_ticks(78_400), 2000);
    // Ticks fall 0.0784, 0.155232, 0.23052736, ...: 0.2 blocks end during tick 3.
    let t = distance_to_ticks(200_000);
    assert!(t > 2000 && t < 3000);
    let one = distance_to_ticks(BLOCK);
    assert!(one > 5000 && one < 6000);
}

#[test]
fn jump_cost_is_difference_of_falls() {
    let j = jump_one_block_cost();
    assert_eq!(j, distance_to_ticks(1_250_000) - distance_to_ticks(250_000));
    assert!(j > 3000 && j < 3300);
}
