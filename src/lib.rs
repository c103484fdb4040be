//! Pathfinding and mining planner core for a voxel-world bot: block-state
//! classification, a move catalogue with tick costs, a water sub-model, an
//! A* planner, and a mining planner with ore scanning, vein clustering and
//! blacklisting.
pub mod pos;
pub mod block;
pub mod costs;
pub mod world;
pub mod moves;
pub mod astar;
pub mod water;
pub mod deadlines;
pub mod mining;
pub mod mining_goals;
pub mod vein;
pub mod goals;
pub mod world_scanner;
pub mod sort;
pub mod mining_process;
pub mod bot;
