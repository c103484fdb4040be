//! Water: classification, safety, swimming costs, air supply, and the moves
//! that swim through, up, down, into and out of water.
use vstd::prelude::*;
use crate::pos::{BlockPos, CardinalDirection, dir_dx, dir_dz, offset_spec};
use crate::block::{Block, BlockState, passable};
use crate::costs::{
    SWIMMING_COST, SPRINT_SWIMMING_COST, AIR_DEPLETION_PENALTY, DROWNING_AVOIDANCE_COST,
    WATER_EXIT_COST, WATER_ENTRY_COST,
};
use crate::world::{CachedWorld, in_limits, node_ok, up, COORD_LIMIT};
use crate::moves::{Edge, MoveKind, opt_seq, push_opt};

verus! {

/// The kinds of water that a swimmer meets.
#[derive(Clone, Copy, Debug, PartialEq, Eq, Hash, Structural)]
pub enum WaterType {
    /// Still water, safe to navigate.
    StillWater,
    /// Flowing water, avoided.
    FlowingWater,
    /// A block that holds water, such as a waterlogged fence.
    Waterlogged,
    /// Water next to a danger such as lava.
    Dangerous,
}

pub open spec fn classify(s: BlockState) -> Option<WaterType> {
    if s.block == Block::Water {
        if s.level == 0 {
            Some(WaterType::StillWater)
        } else {
            Some(WaterType::FlowingWater)
        }
    } else if s.waterlogged {
        Some(WaterType::Waterlogged)
    } else if s.block == Block::Seagrass || s.block == Block::TallSeagrass || s.block
        == Block::Kelp || s.block == Block::KelpPlant {
        Some(WaterType::StillWater)
    } else {
        None
    }
}

pub open spec fn navigable(t: WaterType) -> bool {
    t == WaterType::StillWater || t == WaterType::Waterlogged
}

/// Which kind of water a block state is, if any.
pub fn classify_water(s: BlockState) -> (r: Option<WaterType>)
    ensures
        r == classify(s),
{
    if s.block == Block::Water {
        if s.level == 0 {
            Some(WaterType::StillWater)
        } else {
            Some(WaterType::FlowingWater)
        }
    } else if s.waterlogged {
        Some(WaterType::Waterlogged)
    } else {
        match s.block {
            Block::Seagrass | Block::TallSeagrass | Block::Kelp | Block::KelpPlant => Some(
                WaterType::StillWater,
            ),
            _ => None,
        }
    }
}

/// Still and waterlogged water can be swum through; flowing and dangerous
/// water cannot.
pub fn is_water_navigable(water_type: WaterType) -> (r: bool)
    ensures
        r == navigable(water_type),
{
    match water_type {
        WaterType::StillWater | WaterType::Waterlogged => true,
        WaterType::FlowingWater => false,
        WaterType::Dangerous => false,
    }
}

pub open spec fn lava_at(w: CachedWorld, p: BlockPos) -> bool {
    w.block_at(p).block == Block::Lava
}

/// No lava beside, above or below `p`.
pub open spec fn water_safe(w: CachedWorld, p: BlockPos) -> bool {
    &&& !lava_at(w, offset_spec(p, 0, 0, -1))
    &&& !lava_at(w, offset_spec(p, 1, 0, 0))
    &&& !lava_at(w, offset_spec(p, 0, 0, 1))
    &&& !lava_at(w, offset_spec(p, -1, 0, 0))
    &&& !lava_at(w, up(p, 1))
    &&& !lava_at(w, up(p, -1))
}

pub fn is_water_safe(w: &CachedWorld, p: BlockPos) -> (r: bool)
    requires
        in_limits(p),
    ensures
        r == water_safe(*w, p),
{
    !w.get_block_state(p.offset(0, 0, -1)).is_lava() && !w.get_block_state(
        p.offset(1, 0, 0),
    ).is_lava() && !w.get_block_state(p.offset(0, 0, 1)).is_lava() && !w.get_block_state(
        p.offset(-1, 0, 0),
    ).is_lava() && !w.get_block_state(p.offset(0, 1, 0)).is_lava() && !w.get_block_state(
        p.offset(0, -1, 0),
    ).is_lava()
}

/// What a swimmer carries from move to move.
#[derive(Clone, Copy, Debug, PartialEq, Eq, Hash, Structural)]
pub struct SwimmingState {
    /// Consecutive moves made under water.
    pub consecutive_swim_moves: u32,
    /// Air left, in ticks.
    pub estimated_air: i32,
    pub is_sprint_swimming: bool,
}

/// A full supply of air, in ticks.
pub const MAX_AIR: i32 = 300;

impl SwimmingState {
    /// No swimming yet, a full supply of air.
    pub fn default() -> (r: SwimmingState)
        ensures
            r == (SwimmingState {
                consecutive_swim_moves: 0,
                estimated_air: MAX_AIR,
                is_sprint_swimming: false,
            }),
    {
        SwimmingState { consecutive_swim_moves: 0, estimated_air: MAX_AIR, is_sprint_swimming: false }
    }
}

pub open spec fn submerged(w: CachedWorld, p: BlockPos) -> bool {
    classify(w.block_at(up(p, 1))) is Some
}

/// Swimming cost from `cur` to `target`: sprint swimming after three
/// submerged moves; once the air ratio `air / 300` is below 0.3, a penalty
/// of `AIR_DEPLETION_PENALTY * (1 - ratio)²`; and a large one at 20 ticks of
/// air or less.
pub open spec fn swim_cost(w: CachedWorld, cur: BlockPos, target: BlockPos, st: SwimmingState) -> int {
    let base = if submerged(w, cur) && submerged(w, target) && st.consecutive_swim_moves >= 3 {
        SPRINT_SWIMMING_COST as int
    } else {
        SWIMMING_COST as int
    };
    let a = st.estimated_air as int;
    let depletion = if a < 90 {
        AIR_DEPLETION_PENALTY * ((300 - a) * (300 - a)) / 90000
    } else {
        0
    };
    let drowning = if st.estimated_air <= 20 {
        DROWNING_AVOIDANCE_COST as int
    } else {
        0
    };
    base + depletion + drowning
}

pub fn calculate_swimming_cost(
    w: &CachedWorld,
    current_pos: BlockPos,
    target_pos: BlockPos,
    swimming_state: SwimmingState,
) -> (r: u64)
    requires
        in_limits(current_pos),
        in_limits(target_pos),
    ensures
        r == swim_cost(*w, current_pos, target_pos, swimming_state),
        r <= 600_000_000_000_000_000,
{
    let current_submerged = classify_water(w.get_block_state(current_pos.offset(0, 1, 0))).is_some();
    let target_submerged = classify_water(w.get_block_state(target_pos.offset(0, 1, 0))).is_some();
    let mut cost = SWIMMING_COST;
    if current_submerged && target_submerged && swimming_state.consecutive_swim_moves >= 3 {
        cost = SPRINT_SWIMMING_COST;
    }
    if swimming_state.estimated_air < 90 {
        let used: u128 = (300i64 - swimming_state.estimated_air as i64) as u128;
        assert(used * used <= 4_700_000_000_000_000_000u128) by (nonlinear_arith)
            requires used <= 2_147_483_948u128;
        let sq = used * used;
        let penalty: u128 = 10000 * sq / 90000;
        assert(penalty <= 530_000_000_000_000_000u128) by (nonlinear_arith)
            requires sq <= 4_700_000_000_000_000_000u128, penalty == 10000 * sq / 90000;
        cost = cost + penalty as u64;
    }
    if swimming_state.estimated_air <= 20 {
        cost = cost + DROWNING_AVOIDANCE_COST;
    }
    cost
}

/// Air found going up from `p`, looking at heights `k..=max`: air is found,
/// unless a solid block that holds no water comes first.
pub open spec fn air_above_from(w: CachedWorld, p: BlockPos, k: int, max: int) -> bool
    decreases max + 1 - k,
{
    if k > max {
        false
    } else {
        let s = w.block_at(up(p, k));
        if s.block == Block::Air {
            true
        } else if !passable(s) && classify(s) is None {
            false
        } else {
            air_above_from(w, p, k + 1, max)
        }
    }
}

pub open spec fn air_access(w: CachedWorld, p: BlockPos, max: int) -> bool {
    air_above_from(w, p, 1, max)
}

/// Whether air lies within `max_distance` blocks straight up from `pos`,
/// through passable blocks or water.
pub fn has_nearby_air_access(w: &CachedWorld, pos: BlockPos, max_distance: i32) -> (r: bool)
    requires
        in_limits(pos),
        max_distance <= COORD_LIMIT,
    ensures
        r == air_access(*w, pos, max_distance as int),
{
    if max_distance < 1 {
        return false;
    }
    let mut k: i32 = 1;
    while k <= max_distance
        invariant
            1 <= k,
            max_distance <= COORD_LIMIT,
            k <= max_distance + 1,
            in_limits(pos),
            air_access(*w, pos, max_distance as int) == air_above_from(
                *w,
                pos,
                k as int,
                max_distance as int,
            ),
        decreases max_distance + 1 - k,
    {
        let s = w.get_block_state(pos.offset(0, k, 0));
        if s.is_air() {
            return true;
        }
        if !s.is_passable() && classify_water(s).is_none() {
            return false;
        }
        k = k + 1;
    }
    false
}

/// The ticks a move of `cost` thousandths of a tick lasts, rounded up: at
/// least one, and at most a full supply of air.
pub open spec fn edge_ticks(cost: u64) -> int {
    let t = cost / 1000 + if cost % 1000 != 0 { 1int } else { 0int };
    if t < 1 {
        1
    } else if t > MAX_AIR {
        MAX_AIR as int
    } else {
        t
    }
}

/// Air used by a move: one tick of air per tick the move lasts, none where
/// either end has air just above.
pub open spec fn air_use(w: CachedWorld, cur: BlockPos, target: BlockPos, cost: u64) -> int {
    if w.block_at(up(cur, 1)).block == Block::Air || w.block_at(up(target, 1)).block == Block::Air {
        0
    } else {
        edge_ticks(cost)
    }
}

/// Air used by a move of `edge_cost` thousandths of a tick, in ticks: about
/// one per tick it lasts, none where either end has air just above.
pub fn estimate_air_consumption(current_pos: BlockPos, target_pos: BlockPos, edge_cost: u64, w: &CachedWorld) -> (r: i32)
    requires
        in_limits(current_pos),
        in_limits(target_pos),
    ensures
        r == air_use(*w, current_pos, target_pos, edge_cost),
{
    if w.get_block_state(current_pos.offset(0, 1, 0)).is_air() || w.get_block_state(
        target_pos.offset(0, 1, 0),
    ).is_air() {
        0
    } else {
        let t: u64 = edge_cost / 1000 + if edge_cost % 1000 != 0 {
            1
        } else {
            0
        };
        if t < 1 {
            1
        } else if t > MAX_AIR as u64 {
            MAX_AIR
        } else {
            t as i32
        }
    }
}

/// The air left after a move of `cost` from `cur` to `target`: full again
/// where the block above `target` is air or air lies within two more blocks
/// up, else less what the move used.
pub open spec fn air_after(w: CachedWorld, air: int, cur: BlockPos, target: BlockPos, cost: u64) -> int {
    if air_access(w, target, 3) {
        MAX_AIR as int
    } else {
        air - air_use(w, cur, target, cost)
    }
}

impl SwimmingState {
    /// The state after a move of `cost` thousandths of a tick from `cur` to
    /// `target`.
    pub fn after_move(&self, w: &CachedWorld, cur: BlockPos, target: BlockPos, cost: u64) -> (r: SwimmingState)
        requires
            in_limits(cur),
            in_limits(target),
            self.estimated_air >= i32::MIN + MAX_AIR,
        ensures
            r.estimated_air == air_after(*w, self.estimated_air as int, cur, target, cost),
            r.consecutive_swim_moves == if air_use(*w, cur, target, cost) > 0 {
                if self.consecutive_swim_moves == u32::MAX {
                    u32::MAX as int
                } else {
                    self.consecutive_swim_moves + 1
                }
            } else {
                0
            },
            r.is_sprint_swimming == (r.consecutive_swim_moves >= 3),
    {
        let used = estimate_air_consumption(cur, target, cost, w);
        let air = if has_nearby_air_access(w, target, 3) {
            MAX_AIR
        } else {
            self.estimated_air - used
        };
        let moves = if used > 0 {
            if self.consecutive_swim_moves == u32::MAX {
                u32::MAX
            } else {
                self.consecutive_swim_moves + 1
            }
        } else {
            0
        };
        SwimmingState { consecutive_swim_moves: moves, estimated_air: air, is_sprint_swimming: moves >= 3 }
    }
}

/// The air supply on reaching node `i` of `nodes`, starting with a full
/// supply at node 0, move `j` costing `costs[j]`.
pub open spec fn air_along(w: CachedWorld, nodes: Seq<BlockPos>, costs: Seq<u64>, i: nat) -> int
    decreases i,
{
    if i == 0 {
        MAX_AIR as int
    } else {
        air_after(w, air_along(w, nodes, costs, (i - 1) as nat), nodes[i - 1], nodes[i as int], costs[i - 1])
    }
}

/// A swimmer whose every node has air within three blocks straight up keeps a
/// full air supply, so never comes near drowning.
pub proof fn lemma_surface_access_keeps_air(w: CachedWorld, nodes: Seq<BlockPos>, costs: Seq<u64>)
    requires
        forall|i: int| 0 <= i < nodes.len() ==> #[trigger] air_access(w, nodes[i], 3),
    ensures
        forall|i: nat| i < nodes.len() ==> #[trigger] air_along(w, nodes, costs, i) == MAX_AIR,
        forall|i: nat| i < nodes.len() ==> #[trigger] air_along(w, nodes, costs, i) > 20,
{
    assert forall|i: nat| i < nodes.len() implies #[trigger] air_along(w, nodes, costs, i) == MAX_AIR by {
        if i > 0 {
            assert(air_access(w, nodes[i as int], 3));
        }
    }
}

pub open spec fn step(p: BlockPos, d: CardinalDirection, dy: int) -> BlockPos {
    offset_spec(p, dir_dx(d), dy, dir_dz(d))
}

/// A target that water moves may enter: navigable water, or a passable
/// block that holds no water.
pub open spec fn enterable(s: BlockState) -> bool {
    match classify(s) {
        Some(t) => navigable(t),
        None => passable(s),
    }
}

/// The swimming state that the water moves take at `p`: the given count
/// of swimming moves where water lies above, else none; full air.
pub open spec fn swim_state_at(w: CachedWorld, p: BlockPos, n: u32) -> SwimmingState {
    SwimmingState {
        consecutive_swim_moves: if submerged(w, p) { n } else { 0 },
        estimated_air: MAX_AIR,
        is_sprint_swimming: false,
    }
}

pub open spec fn in_water(w: CachedWorld, p: BlockPos) -> bool {
    classify(w.block_at(p)) is Some
}

/// Swimming one block sideways, from water to water or out to open air.
pub open spec fn water_traverse_spec(w: CachedWorld, p: BlockPos, d: CardinalDirection) -> Option<Edge> {
    let t = step(p, d, 0);
    let ts = w.block_at(t);
    let above = w.block_at(up(t, 1));
    if !in_water(w, p) || !enterable(ts) || !water_safe(w, t) || (!passable(above) && classify(
        above,
    ) is None) {
        None
    } else {
        let c = if classify(ts) is Some {
            swim_cost(w, p, t, swim_state_at(w, p, 4))
        } else {
            WATER_EXIT_COST as int
        };
        let c2 = if air_access(w, t, 3) { c * 9 / 10 } else { c };
        Some(Edge { target: t, cost: c2 as u64, kind: MoveKind::WaterTraverse })
    }
}

/// Swimming up one block and one sideways, into water or to the surface.
pub open spec fn water_ascend_spec(w: CachedWorld, p: BlockPos, d: CardinalDirection) -> Option<Edge> {
    let t = step(p, d, 1);
    let ts = w.block_at(t);
    if !in_water(w, p) || !enterable(ts) || !water_safe(w, t) {
        None
    } else {
        let c = if classify(ts) is Some {
            swim_cost(w, p, t, swim_state_at(w, p, 2)) * 13 / 10
        } else {
            SWIMMING_COST * 8 / 10
        };
        let c2 = if ts.block == Block::Air || air_access(w, t, 3) { c * 7 / 10 } else { c };
        Some(Edge { target: t, cost: c2 as u64, kind: MoveKind::WaterAscend })
    }
}

/// Swimming down one block and one sideways, into navigable water.
pub open spec fn water_descend_spec(w: CachedWorld, p: BlockPos, d: CardinalDirection) -> Option<Edge> {
    let t = step(p, d, -1);
    let ts = w.block_at(t);
    if !in_water(w, p) || !(classify(ts) is Some && navigable(classify(ts)->0)) || !water_safe(w, t) {
        None
    } else {
        let c = swim_cost(w, p, t, swim_state_at(w, p, 3)) * 9 / 10;
        let c2 = if air_access(w, t, 4) { c } else { c * 12 / 10 };
        Some(Edge { target: t, cost: c2 as u64, kind: MoveKind::WaterDescend })
    }
}

/// Stepping from land into navigable water beside it.
pub open spec fn water_entry_spec(w: CachedWorld, p: BlockPos, d: CardinalDirection) -> Option<Edge> {
    let t = step(p, d, 0);
    let ts = w.block_at(t);
    if in_water(w, p) || !(classify(ts) is Some && navigable(classify(ts)->0)) || !water_safe(w, t) {
        None
    } else {
        Some(Edge { target: t, cost: WATER_ENTRY_COST, kind: MoveKind::WaterEntry })
    }
}

pub open spec fn traverse_edges(w: CachedWorld, p: BlockPos) -> Seq<Edge> {
    opt_seq(water_traverse_spec(w, p, CardinalDirection::North)) + opt_seq(
        water_traverse_spec(w, p, CardinalDirection::East),
    ) + opt_seq(water_traverse_spec(w, p, CardinalDirection::South)) + opt_seq(
        water_traverse_spec(w, p, CardinalDirection::West),
    )
}

pub open spec fn ascend_edges(w: CachedWorld, p: BlockPos) -> Seq<Edge> {
    opt_seq(water_ascend_spec(w, p, CardinalDirection::North)) + opt_seq(
        water_ascend_spec(w, p, CardinalDirection::East),
    ) + opt_seq(water_ascend_spec(w, p, CardinalDirection::South)) + opt_seq(
        water_ascend_spec(w, p, CardinalDirection::West),
    )
}

pub open spec fn descend_edges(w: CachedWorld, p: BlockPos) -> Seq<Edge> {
    opt_seq(water_descend_spec(w, p, CardinalDirection::North)) + opt_seq(
        water_descend_spec(w, p, CardinalDirection::East),
    ) + opt_seq(water_descend_spec(w, p, CardinalDirection::South)) + opt_seq(
        water_descend_spec(w, p, CardinalDirection::West),
    )
}

pub open spec fn entry_edges(w: CachedWorld, p: BlockPos) -> Seq<Edge> {
    opt_seq(water_entry_spec(w, p, CardinalDirection::North)) + opt_seq(
        water_entry_spec(w, p, CardinalDirection::East),
    ) + opt_seq(water_entry_spec(w, p, CardinalDirection::South)) + opt_seq(
        water_entry_spec(w, p, CardinalDirection::West),
    )
}

/// Every water edge from `p`: sideways, up, down, then entries from land.
pub open spec fn water_edges(w: CachedWorld, p: BlockPos) -> Seq<Edge> {
    traverse_edges(w, p) + ascend_edges(w, p) + descend_edges(w, p) + entry_edges(w, p)
}

fn step_exec(p: BlockPos, d: CardinalDirection, dy: i32) -> (r: BlockPos)
    requires
        node_ok(p),
        -8 <= dy <= 8,
    ensures
        r == step(p, d, dy as int),
        in_limits(r),
{
    p.offset(d.x(), dy, d.z())
}

fn enterable_exec(s: BlockState) -> (r: bool)
    ensures
        r == enterable(s),
{
    match classify_water(s) {
        Some(t) => is_water_navigable(t),
        None => s.is_passable(),
    }
}

fn swim_state_at_exec(w: &CachedWorld, p: BlockPos, n: u32) -> (r: SwimmingState)
    requires
        in_limits(p),
    ensures
        r == swim_state_at(*w, p, n),
{
    let mut st = SwimmingState::default();
    if classify_water(w.get_block_state(p.offset(0, 1, 0))).is_some() {
        st.consecutive_swim_moves = n;
    }
    st
}

fn water_traverse_one(w: &CachedWorld, p: BlockPos, d: CardinalDirection) -> (r: Option<Edge>)
    requires
        node_ok(p),
    ensures
        r == water_traverse_spec(*w, p, d),
{
    if classify_water(w.get_block_state(p)).is_none() {
        return None;
    }
    let t = step_exec(p, d, 0);
    let ts = w.get_block_state(t);
    if !enterable_exec(ts) || !is_water_safe(w, t) {
        return None;
    }
    let above = w.get_block_state(t.offset(0, 1, 0));
    if !above.is_passable() && classify_water(above).is_none() {
        return None;
    }
    let mut cost = if classify_water(ts).is_some() {
        calculate_swimming_cost(w, p, t, swim_state_at_exec(w, p, 4))
    } else {
        WATER_EXIT_COST
    };
    if has_nearby_air_access(w, t, 3) {
        cost = cost * 9 / 10;
    }
    Some(Edge { target: t, cost, kind: MoveKind::WaterTraverse })
}

fn water_ascend_one(w: &CachedWorld, p: BlockPos, d: CardinalDirection) -> (r: Option<Edge>)
    requires
        node_ok(p),
    ensures
        r == water_ascend_spec(*w, p, d),
{
    if classify_water(w.get_block_state(p)).is_none() {
        return None;
    }
    let t = step_exec(p, d, 1);
    let ts = w.get_block_state(t);
    if !enterable_exec(ts) || !is_water_safe(w, t) {
        return None;
    }
    let mut cost = if classify_water(ts).is_some() {
        calculate_swimming_cost(w, p, t, swim_state_at_exec(w, p, 2)) * 13 / 10
    } else {
        SWIMMING_COST * 8 / 10
    };
    if ts.is_air() || has_nearby_air_access(w, t, 3) {
        cost = cost * 7 / 10;
    }
    Some(Edge { target: t, cost, kind: MoveKind::WaterAscend })
}

fn water_descend_one(w: &CachedWorld, p: BlockPos, d: CardinalDirection) -> (r: Option<Edge>)
    requires
        node_ok(p),
    ensures
        r == water_descend_spec(*w, p, d),
{
    if classify_water(w.get_block_state(p)).is_none() {
        return None;
    }
    let t = step_exec(p, d, -1);
    let ts = w.get_block_state(t);
    match classify_water(ts) {
        Some(wt) => {
            if !is_water_navigable(wt) {
                return None;
            }
        },
        None => {
            return None;
        },
    }
    if !is_water_safe(w, t) {
        return None;
    }
    let mut cost = calculate_swimming_cost(w, p, t, swim_state_at_exec(w, p, 3)) * 9 / 10;
    if !has_nearby_air_access(w, t, 4) {
        cost = cost * 12 / 10;
    }
    Some(Edge { target: t, cost, kind: MoveKind::WaterDescend })
}

fn water_entry_one(w: &CachedWorld, p: BlockPos, d: CardinalDirection) -> (r: Option<Edge>)
    requires
        node_ok(p),
    ensures
        r == water_entry_spec(*w, p, d),
{
    if classify_water(w.get_block_state(p)).is_some() {
        return None;
    }
    let t = step_exec(p, d, 0);
    match classify_water(w.get_block_state(t)) {
        Some(wt) => {
            if !is_water_navigable(wt) {
                return None;
            }
        },
        None => {
            return None;
        },
    }
    if !is_water_safe(w, t) {
        return None;
    }
    Some(Edge { target: t, cost: WATER_ENTRY_COST, kind: MoveKind::WaterEntry })
}

fn water_traverse_move(w: &CachedWorld, p: BlockPos, edges: &mut Vec<Edge>)
    requires
        node_ok(p),
    ensures
        final(edges)@ == old(edges)@ + traverse_edges(*w, p),
{
    push_opt(edges, water_traverse_one(w, p, CardinalDirection::North));
    push_opt(edges, water_traverse_one(w, p, CardinalDirection::East));
    push_opt(edges, water_traverse_one(w, p, CardinalDirection::South));
    push_opt(edges, water_traverse_one(w, p, CardinalDirection::West));
    assert(final(edges)@ =~= old(edges)@ + traverse_edges(*w, p));
}

fn water_ascend_move(w: &CachedWorld, p: BlockPos, edges: &mut Vec<Edge>)
    requires
        node_ok(p),
    ensures
        final(edges)@ == old(edges)@ + ascend_edges(*w, p),
{
    push_opt(edges, water_ascend_one(w, p, CardinalDirection::North));
    push_opt(edges, water_ascend_one(w, p, CardinalDirection::East));
    push_opt(edges, water_ascend_one(w, p, CardinalDirection::South));
    push_opt(edges, water_ascend_one(w, p, CardinalDirection::West));
    assert(final(edges)@ =~= old(edges)@ + ascend_edges(*w, p));
}

fn water_descend_move(w: &CachedWorld, p: BlockPos, edges: &mut Vec<Edge>)
    requires
        node_ok(p),
    ensures
        final(edges)@ == old(edges)@ + descend_edges(*w, p),
{
    push_opt(edges, water_descend_one(w, p, CardinalDirection::North));
    push_opt(edges, water_descend_one(w, p, CardinalDirection::East));
    push_opt(edges, water_descend_one(w, p, CardinalDirection::South));
    push_opt(edges, water_descend_one(w, p, CardinalDirection::West));
    assert(final(edges)@ =~= old(edges)@ + descend_edges(*w, p));
}

/// Adds the edges that step from land into water beside `p`.
pub fn water_entry_moves(w: &CachedWorld, p: BlockPos, edges: &mut Vec<Edge>)
    requires
        node_ok(p),
    ensures
        final(edges)@ == old(edges)@ + entry_edges(*w, p),
{
    push_opt(edges, water_entry_one(w, p, CardinalDirection::North));
    push_opt(edges, water_entry_one(w, p, CardinalDirection::East));
    push_opt(edges, water_entry_one(w, p, CardinalDirection::South));
    push_opt(edges, water_entry_one(w, p, CardinalDirection::West));
    assert(final(edges)@ =~= old(edges)@ + entry_edges(*w, p));
}

/// Adds every water edge from `node` to `edges`.
pub fn water_moves(w: &CachedWorld, node: BlockPos, edges: &mut Vec<Edge>)
    requires
        node_ok(node),
    ensures
        final(edges)@ == old(edges)@ + water_edges(*w, node),
{
    let ghost e0 = edges@;
    let ghost a = traverse_edges(*w, node);
    let ghost b = ascend_edges(*w, node);
    let ghost c = descend_edges(*w, node);
    let ghost d = entry_edges(*w, node);
    water_traverse_move(w, node, edges);
    water_ascend_move(w, node, edges);
    water_descend_move(w, node, edges);
    water_entry_moves(w, node, edges);
    proof {
        assert(edges@ == e0 + a + b + c + d);
        assert(water_edges(*w, node) == a + b + c + d);
        assert(e0 + a + b + c + d =~= e0 + (a + b + c + d));
    }
}

} // verus!
