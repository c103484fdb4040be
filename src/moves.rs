//! The move catalogue: the edges that leave a node of the search graph.
use vstd::prelude::*;
use crate::pos::{BlockPos, CardinalDirection, offset_spec};
use crate::block::{passable, solid, liquid, falling};
use crate::costs::{
    WALK_ONE_BLOCK_COST, SPRINT_ONE_BLOCK_COST, WALK_OFF_BLOCK_COST, JUMP_PENALTY,
    CENTER_AFTER_FALL_COST, DIAGONAL_WALK_COST, FALL_TABLE_LEN, BLOCK, fall_ticks,
    fall_n_blocks_cost_table, jump_one_block_cost, lemma_jump_cost_bounded, lemma_short_fall_bounded,
};
use crate::world::{CachedWorld, node_ok, near_ok, in_limits, up};
use crate::mining::{MiningCache, ToolReport, break_cost, lemma_break_cost_bounded};
use crate::water::{water_edges, water_moves};

verus! {

/// What an edge asks the avatar to do.
#[derive(Clone, Copy, Debug, PartialEq, Eq, Hash, Structural)]
pub enum MoveKind {
    Traverse,
    Diagonal,
    Ascend,
    Descend,
    Downward,
    Parkour,
    WaterTraverse,
    WaterAscend,
    WaterDescend,
    WaterEntry,
}

/// An edge of the search graph: where it leads, what it costs in
/// thousandths of a tick, and how it is executed.
#[derive(Clone, Copy, Debug, PartialEq, Eq, Hash, Structural)]
pub struct Edge {
    pub target: BlockPos,
    pub cost: u64,
    pub kind: MoveKind,
}

/// The edge as a one-element sequence, or nothing.
pub open spec fn opt_seq(o: Option<Edge>) -> Seq<Edge> {
    match o {
        Some(e) => seq![e],
        None => Seq::empty(),
    }
}

pub fn push_opt(edges: &mut Vec<Edge>, o: Option<Edge>)
    ensures
        final(edges)@ == old(edges)@ + opt_seq(o),
{
    match o {
        Some(e) => {
            edges.push(e);
        },
        None => {
            assert(old(edges)@ + opt_seq(o) == old(edges)@);
        },
    }
}


/// What every expansion of one plan shares: the fall-cost table, the cost
/// of a jump, and whether blocks may be broken.
pub struct MoveCtx {
    pub fall_costs: Vec<u64>,
    pub jump_cost: u64,
    pub allow_mining: bool,
}

impl MoveCtx {
    pub open spec fn wf(&self) -> bool {
        &&& self.fall_costs@.len() == FALL_TABLE_LEN
        &&& forall|n: int| 0 <= n < FALL_TABLE_LEN ==> #[trigger] self.fall_costs@[n] == fall_ticks((n * BLOCK) as nat)
        &&& self.jump_cost == fall_ticks(1_250_000) - fall_ticks(250_000)
    }

    pub fn new(allow_mining: bool) -> (r: MoveCtx)
        ensures
            r.wf(),
            r.allow_mining == allow_mining,
    {
        MoveCtx { fall_costs: fall_n_blocks_cost_table(), jump_cost: jump_one_block_cost(), allow_mining }
    }
}

/// The position `n` blocks along `d` and `dy` up.
pub open spec fn along(p: BlockPos, d: CardinalDirection, n: int, dy: int) -> BlockPos {
    match d {
        CardinalDirection::North => offset_spec(p, 0, dy, -n),
        CardinalDirection::East => offset_spec(p, n, dy, 0),
        CardinalDirection::South => offset_spec(p, 0, dy, n),
        CardinalDirection::West => offset_spec(p, -n, dy, 0),
    }
}

fn along_exec(p: BlockPos, d: CardinalDirection, n: i32, dy: i32) -> (r: BlockPos)
    requires
        node_ok(p),
        0 <= n <= 8,
        -8 <= dy <= 8,
    ensures
        r == along(p, d, n as int, dy as int),
        near_ok(r),
{
    match d {
        CardinalDirection::North => p.offset(0, dy, -n),
        CardinalDirection::East => p.offset(n, dy, 0),
        CardinalDirection::South => p.offset(0, dy, n),
        CardinalDirection::West => p.offset(-n, dy, 0),
    }
}

/// The cost of clearing `p`: nothing where it is passable; breaking it where
/// mining is allowed, it is no liquid and no falling block rests on it;
/// otherwise impossible.
pub open spec fn pass_cost(w: CachedWorld, inv: Option<Seq<ToolReport>>, allow: bool, p: BlockPos) -> Option<int> {
    let s = w.block_at(p);
    if passable(s) {
        Some(0)
    } else if allow && !liquid(s) && !falling(w.block_at(up(p, 1))) {
        break_cost(inv, s)
    } else {
        None
    }
}

/// The cost of clearing `p` and the block above it for a body.
pub open spec fn body_cost(w: CachedWorld, inv: Option<Seq<ToolReport>>, allow: bool, p: BlockPos) -> Option<int> {
    match (pass_cost(w, inv, allow, p), pass_cost(w, inv, allow, up(p, 1))) {
        (Some(a), Some(b)) => Some(a + b),
        _ => None,
    }
}

fn pass_cost_exec(w: &CachedWorld, cache: &mut MiningCache, allow: bool, p: BlockPos) -> (r: Option<u64>)
    requires
        in_limits(p),
        old(cache).wf(),
    ensures
        final(cache).wf(),
        final(cache).inventory() == old(cache).inventory(),
        forall|q: BlockPos| final(cache).avoid_until(q) == old(cache).avoid_until(q),
        r matches Some(c) ==> pass_cost(*w, old(cache).inventory(), allow, p) == Some(c as int) && c <= 1_000_002_000,
        r is None ==> pass_cost(*w, old(cache).inventory(), allow, p) is None,
{
    let s = w.get_block_state(p);
    if s.is_passable() {
        return Some(0);
    }
    if allow && !s.is_liquid() && !w.get_block_state(p.offset(0, 1, 0)).is_falling_block() {
        proof {
            lemma_break_cost_bounded(cache.inventory(), s);
        }
        cache.cost_for(s)
    } else {
        None
    }
}

fn body_cost_exec(w: &CachedWorld, cache: &mut MiningCache, allow: bool, p: BlockPos) -> (r: Option<u64>)
    requires
        near_ok(p),
        old(cache).wf(),
    ensures
        final(cache).wf(),
        final(cache).inventory() == old(cache).inventory(),
        forall|q: BlockPos| final(cache).avoid_until(q) == old(cache).avoid_until(q),
        r matches Some(c) ==> body_cost(*w, old(cache).inventory(), allow, p) == Some(c as int) && c <= 2_000_004_000,
        r is None ==> body_cost(*w, old(cache).inventory(), allow, p) is None,
{
    let a = pass_cost_exec(w, cache, allow, p);
    let b = pass_cost_exec(w, cache, allow, p.offset(0, 1, 0));
    match (a, b) {
        (Some(x), Some(y)) => Some(x + y),
        _ => None,
    }
}

/// Walking one block along `d`, breaking what is in the way where allowed.
#[verifier::opaque]
pub open spec fn traverse_spec(w: CachedWorld, inv: Option<Seq<ToolReport>>, allow: bool, p: BlockPos, d: CardinalDirection) -> Option<Edge> {
    let t = along(p, d, 1, 0);
    match body_cost(w, inv, allow, t) {
        Some(c) => if solid(w.block_at(up(t, -1))) {
            Some(Edge { target: t, cost: (WALK_ONE_BLOCK_COST + c) as u64, kind: MoveKind::Traverse })
        } else {
            None
        },
        None => None,
    }
}

/// Jumping up one block along `d`.
#[verifier::opaque]
pub open spec fn ascend_spec(ctx: MoveCtx, w: CachedWorld, inv: Option<Seq<ToolReport>>, p: BlockPos, d: CardinalDirection) -> Option<Edge> {
    let t = along(p, d, 1, 1);
    match (pass_cost(w, inv, ctx.allow_mining, up(p, 2)), body_cost(w, inv, ctx.allow_mining, t)) {
        (Some(a), Some(b)) => if solid(w.block_at(along(p, d, 1, 0))) {
            Some(Edge {
                target: t,
                cost: (ctx.jump_cost + JUMP_PENALTY + SPRINT_ONE_BLOCK_COST + a + b) as u64,
                kind: MoveKind::Ascend,
            })
        } else {
            None
        },
        _ => None,
    }
}

/// Walking off an edge along `d`, down one block.
#[verifier::opaque]
pub open spec fn descend_spec(ctx: MoveCtx, w: CachedWorld, inv: Option<Seq<ToolReport>>, p: BlockPos, d: CardinalDirection) -> Option<Edge> {
    let t = along(p, d, 1, -1);
    match body_cost(w, inv, ctx.allow_mining, t) {
        Some(c) => if solid(w.block_at(up(t, -1))) {
            Some(Edge {
                target: t,
                cost: (WALK_OFF_BLOCK_COST + ctx.fall_costs@[1] + CENTER_AFTER_FALL_COST + c) as u64,
                kind: MoveKind::Descend,
            })
        } else {
            None
        },
        None => None,
    }
}

/// The direction a quarter turn clockwise from `d`.
pub open spec fn clockwise(d: CardinalDirection) -> CardinalDirection {
    match d {
        CardinalDirection::North => CardinalDirection::East,
        CardinalDirection::East => CardinalDirection::South,
        CardinalDirection::South => CardinalDirection::West,
        CardinalDirection::West => CardinalDirection::North,
    }
}

/// One block along `d` and one along the next direction clockwise.
pub open spec fn diagonal_of(p: BlockPos, d: CardinalDirection) -> BlockPos {
    along(along(p, d, 1, 0), clockwise(d), 1, 0)
}

/// Walking diagonally, between `d` and the next direction clockwise, past
/// at least one open side, without breaking anything.
#[verifier::opaque]
pub open spec fn diagonal_spec(w: CachedWorld, p: BlockPos, d: CardinalDirection) -> Option<Edge> {
    let t = diagonal_of(p, d);
    if w.body_fits(t) && solid(w.block_at(up(t, -1))) && (w.body_fits(along(p, d, 1, 0)) || w.body_fits(
        along(p, clockwise(d), 1, 0),
    )) {
        Some(Edge { target: t, cost: DIAGONAL_WALK_COST, kind: MoveKind::Diagonal })
    } else {
        None
    }
}

/// Walking off an edge along `d` and falling `n` blocks (2 or 3) onto solid
/// ground, through open air.
#[verifier::opaque]
pub open spec fn fall_spec(ctx: MoveCtx, w: CachedWorld, p: BlockPos, d: CardinalDirection, n: int) -> Option<Edge> {
    let h = along(p, d, 1, 0);
    let t = along(p, d, 1, -n);
    if w.body_fits(h) && passable(w.block_at(along(p, d, 1, -1))) && passable(w.block_at(along(p, d, 1, -2)))
        && (n == 3 ==> passable(w.block_at(along(p, d, 1, -3)))) && solid(w.block_at(up(t, -1))) {
        Some(Edge {
            target: t,
            cost: (WALK_OFF_BLOCK_COST + ctx.fall_costs@[n] + CENTER_AFTER_FALL_COST) as u64,
            kind: MoveKind::Descend,
        })
    } else {
        None
    }
}

/// Breaking the block underfoot and dropping onto the solid block below it.
#[verifier::opaque]
pub open spec fn downward_spec(ctx: MoveCtx, w: CachedWorld, inv: Option<Seq<ToolReport>>, p: BlockPos) -> Option<Edge> {
    let t = up(p, -1);
    if !ctx.allow_mining || passable(w.block_at(t)) || !solid(w.block_at(up(p, -2))) {
        None
    } else {
        match pass_cost(w, inv, true, t) {
            Some(c) => Some(Edge {
                target: t,
                cost: (ctx.fall_costs@[1] + c) as u64,
                kind: MoveKind::Downward,
            }),
            None => None,
        }
    }
}

/// The first `g` blocks along `d` are a gap to jump over: open for the body
/// and the jump, with no ground beneath.
pub open spec fn gap_clear(w: CachedWorld, p: BlockPos, d: CardinalDirection, g: nat) -> bool
    decreases g,
{
    if g == 0 {
        true
    } else {
        gap_clear(w, p, d, (g - 1) as nat) && passable(w.block_at(along(p, d, g as int, 0))) && passable(
            w.block_at(along(p, d, g as int, 1)),
        ) && passable(w.block_at(along(p, d, g as int, 2))) && !solid(
            w.block_at(along(p, d, g as int, -1)),
        )
    }
}

/// Jumping along `d` over a gap of `g` blocks (1 to 3) onto ground at the
/// same height.
#[verifier::opaque]
pub open spec fn parkour_spec(w: CachedWorld, p: BlockPos, d: CardinalDirection, g: int) -> Option<Edge> {
    let t = along(p, d, g + 1, 0);
    if solid(w.block_at(up(p, -1))) && passable(w.block_at(up(p, 2))) && gap_clear(w, p, d, g as nat)
        && w.body_fits(t) && solid(w.block_at(up(t, -1))) {
        Some(Edge {
            target: t,
            cost: (JUMP_PENALTY + SPRINT_ONE_BLOCK_COST * (g + 1)) as u64,
            kind: MoveKind::Parkour,
        })
    } else {
        None
    }
}

/// Jumping along `d` over a gap of `g` blocks (1 or 2) onto ground one
/// block higher.
#[verifier::opaque]
pub open spec fn parkour_up_spec(w: CachedWorld, p: BlockPos, d: CardinalDirection, g: int) -> Option<Edge> {
    let t = along(p, d, g + 1, 1);
    if solid(w.block_at(up(p, -1))) && passable(w.block_at(up(p, 2))) && gap_clear(w, p, d, g as nat)
        && w.body_fits(t) && solid(w.block_at(up(t, -1))) {
        Some(Edge {
            target: t,
            cost: (2 * JUMP_PENALTY + SPRINT_ONE_BLOCK_COST * (g + 1)) as u64,
            kind: MoveKind::Parkour,
        })
    } else {
        None
    }
}

/// The land edges that go along `d`.
#[verifier::opaque]
pub open spec fn land_edges_along(ctx: MoveCtx, w: CachedWorld, inv: Option<Seq<ToolReport>>, p: BlockPos, d: CardinalDirection) -> Seq<Edge> {
    mining_edges_along(ctx, w, inv, p, d) + open_edges_along(ctx, w, p, d)
}

/// Every edge from `p`, in a fixed order: the land edges along each
/// direction, breaking downward, then the water edges.
#[verifier::opaque]
pub open spec fn catalogue(ctx: MoveCtx, w: CachedWorld, inv: Option<Seq<ToolReport>>, p: BlockPos) -> Seq<Edge> {
    land_edges_along(ctx, w, inv, p, CardinalDirection::North) + land_edges_along(
        ctx,
        w,
        inv,
        p,
        CardinalDirection::East,
    ) + land_edges_along(ctx, w, inv, p, CardinalDirection::South) + land_edges_along(
        ctx,
        w,
        inv,
        p,
        CardinalDirection::West,
    ) + opt_seq(downward_spec(ctx, w, inv, p)) + water_edges(w, p)
}

fn traverse_move(w: &CachedWorld, cache: &mut MiningCache, allow: bool, p: BlockPos, d: CardinalDirection) -> (r: Option<Edge>)
    requires
        node_ok(p),
        old(cache).wf(),
    ensures
        final(cache).wf(),
        final(cache).inventory() == old(cache).inventory(),
        forall|q: BlockPos| final(cache).avoid_until(q) == old(cache).avoid_until(q),
        r == traverse_spec(*w, old(cache).inventory(), allow, p, d),
{
    reveal(traverse_spec);
    let t = along_exec(p, d, 1, 0);
    match body_cost_exec(w, cache, allow, t) {
        Some(c) => {
            if w.is_block_solid(t.offset(0, -1, 0)) {
                Some(Edge { target: t, cost: WALK_ONE_BLOCK_COST + c, kind: MoveKind::Traverse })
            } else {
                None
            }
        },
        None => None,
    }
}

fn clockwise_exec(d: CardinalDirection) -> (r: CardinalDirection)
    ensures
        r == clockwise(d),
{
    match d {
        CardinalDirection::North => CardinalDirection::East,
        CardinalDirection::East => CardinalDirection::South,
        CardinalDirection::South => CardinalDirection::West,
        CardinalDirection::West => CardinalDirection::North,
    }
}

fn diagonal_move(w: &CachedWorld, p: BlockPos, d: CardinalDirection) -> (r: Option<Edge>)
    requires
        node_ok(p),
    ensures
        r == diagonal_spec(*w, p, d),
{
    reveal(diagonal_spec);
    let side1 = along_exec(p, d, 1, 0);
    let d2 = clockwise_exec(d);
    let side2 = along_exec(p, d2, 1, 0);
    let t = match d2 {
        CardinalDirection::North => side1.offset(0, 0, -1),
        CardinalDirection::East => side1.offset(1, 0, 0),
        CardinalDirection::South => side1.offset(0, 0, 1),
        CardinalDirection::West => side1.offset(-1, 0, 0),
    };
    assert(t == diagonal_of(p, d));
    if w.is_passable(t) && w.is_block_solid(t.offset(0, -1, 0)) && (w.is_passable(side1) || w.is_passable(side2)) {
        Some(Edge { target: t, cost: DIAGONAL_WALK_COST, kind: MoveKind::Diagonal })
    } else {
        None
    }
}

fn ascend_move(ctx: &MoveCtx, w: &CachedWorld, cache: &mut MiningCache, p: BlockPos, d: CardinalDirection) -> (r: Option<Edge>)
    requires
        node_ok(p),
        ctx.wf(),
        old(cache).wf(),
    ensures
        final(cache).wf(),
        final(cache).inventory() == old(cache).inventory(),
        forall|q: BlockPos| final(cache).avoid_until(q) == old(cache).avoid_until(q),
        r == ascend_spec(*ctx, *w, old(cache).inventory(), p, d),
{
    reveal(ascend_spec);
    let a = pass_cost_exec(w, cache, ctx.allow_mining, p.offset(0, 2, 0));
    let t = along_exec(p, d, 1, 1);
    let b = body_cost_exec(w, cache, ctx.allow_mining, t);
    match (a, b) {
        (Some(a), Some(b)) => {
            if w.is_block_solid(along_exec(p, d, 1, 0)) {
                proof {
                    lemma_jump_cost_bounded();
                }
                Some(Edge {
                    target: t,
                    cost: ctx.jump_cost + JUMP_PENALTY + SPRINT_ONE_BLOCK_COST + a + b,
                    kind: MoveKind::Ascend,
                })
            } else {
                None
            }
        },
        _ => None,
    }
}

fn descend_move(ctx: &MoveCtx, w: &CachedWorld, cache: &mut MiningCache, p: BlockPos, d: CardinalDirection) -> (r: Option<Edge>)
    requires
        node_ok(p),
        ctx.wf(),
        old(cache).wf(),
    ensures
        final(cache).wf(),
        final(cache).inventory() == old(cache).inventory(),
        forall|q: BlockPos| final(cache).avoid_until(q) == old(cache).avoid_until(q),
        r == descend_spec(*ctx, *w, old(cache).inventory(), p, d),
{
    reveal(descend_spec);
    let t = along_exec(p, d, 1, -1);
    match body_cost_exec(w, cache, ctx.allow_mining, t) {
        Some(c) => {
            if w.is_block_solid(t.offset(0, -1, 0)) {
                proof {
                    lemma_short_fall_bounded(1);
                    assert(ctx.fall_costs@[1] == fall_ticks((1 * BLOCK) as nat));
                }
                Some(Edge {
                    target: t,
                    cost: WALK_OFF_BLOCK_COST + ctx.fall_costs[1] + CENTER_AFTER_FALL_COST + c,
                    kind: MoveKind::Descend,
                })
            } else {
                None
            }
        },
        None => None,
    }
}

fn fall_move(ctx: &MoveCtx, w: &CachedWorld, p: BlockPos, d: CardinalDirection, n: i32) -> (r: Option<Edge>)
    requires
        node_ok(p),
        ctx.wf(),
        2 <= n <= 3,
    ensures
        r == fall_spec(*ctx, *w, p, d, n as int),
{
    reveal(fall_spec);
    let h = along_exec(p, d, 1, 0);
    let t = along_exec(p, d, 1, -n);
    let open_path = w.is_passable(h) && w.is_block_passable(along_exec(p, d, 1, -1))
        && w.is_block_passable(along_exec(p, d, 1, -2)) && (n != 3 || w.is_block_passable(
        along_exec(p, d, 1, -3),
    ));
    if open_path && w.is_block_solid(t.offset(0, -1, 0)) {
        proof {
            lemma_short_fall_bounded(n as nat);
            assert(ctx.fall_costs@[n as int] == fall_ticks((n * BLOCK) as nat));
        }
        Some(Edge {
            target: t,
            cost: WALK_OFF_BLOCK_COST + ctx.fall_costs[n as usize] + CENTER_AFTER_FALL_COST,
            kind: MoveKind::Descend,
        })
    } else {
        None
    }
}

fn downward_move(ctx: &MoveCtx, w: &CachedWorld, cache: &mut MiningCache, p: BlockPos) -> (r: Option<Edge>)
    requires
        node_ok(p),
        ctx.wf(),
        old(cache).wf(),
    ensures
        final(cache).wf(),
        final(cache).inventory() == old(cache).inventory(),
        forall|q: BlockPos| final(cache).avoid_until(q) == old(cache).avoid_until(q),
        r == downward_spec(*ctx, *w, old(cache).inventory(), p),
{
    reveal(downward_spec);
    let t = p.offset(0, -1, 0);
    if !ctx.allow_mining || w.is_block_passable(t) || !w.is_block_solid(p.offset(0, -2, 0)) {
        return None;
    }
    match pass_cost_exec(w, cache, true, t) {
        Some(c) => {
            proof {
                lemma_short_fall_bounded(1);
                assert(ctx.fall_costs@[1] == fall_ticks((1 * BLOCK) as nat));
            }
            Some(Edge { target: t, cost: ctx.fall_costs[1] + c, kind: MoveKind::Downward })
        },
        None => None,
    }
}

fn gap_clear_exec(w: &CachedWorld, p: BlockPos, d: CardinalDirection, g: i32) -> (r: bool)
    requires
        node_ok(p),
        0 <= g <= 3,
    ensures
        r == gap_clear(*w, p, d, g as nat),
    decreases g,
{
    if g == 0 {
        return true;
    }
    gap_clear_exec(w, p, d, g - 1) && w.is_block_passable(along_exec(p, d, g, 0)) && w.is_block_passable(
        along_exec(p, d, g, 1),
    ) && w.is_block_passable(along_exec(p, d, g, 2)) && !w.is_block_solid(along_exec(p, d, g, -1))
}

fn parkour_move(w: &CachedWorld, p: BlockPos, d: CardinalDirection, g: i32) -> (r: Option<Edge>)
    requires
        node_ok(p),
        1 <= g <= 3,
    ensures
        r == parkour_spec(*w, p, d, g as int),
{
    reveal(parkour_spec);
    let t = along_exec(p, d, g + 1, 0);
    if w.is_block_solid(p.offset(0, -1, 0)) && w.is_block_passable(p.offset(0, 2, 0)) && gap_clear_exec(w, p, d, g)
        && w.is_passable(t) && w.is_block_solid(t.offset(0, -1, 0)) {
        let n: u64 = (g + 1) as u64;
        assert(SPRINT_ONE_BLOCK_COST * n <= 20000) by (nonlinear_arith)
            requires n <= 4, SPRINT_ONE_BLOCK_COST == 3564;
        Some(Edge {
            target: t,
            cost: JUMP_PENALTY + SPRINT_ONE_BLOCK_COST * n,
            kind: MoveKind::Parkour,
        })
    } else {
        None
    }
}

fn parkour_up_move(w: &CachedWorld, p: BlockPos, d: CardinalDirection, g: i32) -> (r: Option<Edge>)
    requires
        node_ok(p),
        1 <= g <= 2,
    ensures
        r == parkour_up_spec(*w, p, d, g as int),
{
    reveal(parkour_up_spec);
    let t = along_exec(p, d, g + 1, 1);
    if w.is_block_solid(p.offset(0, -1, 0)) && w.is_block_passable(p.offset(0, 2, 0)) && gap_clear_exec(w, p, d, g)
        && w.is_passable(t) && w.is_block_solid(t.offset(0, -1, 0)) {
        let n: u64 = (g + 1) as u64;
        assert(SPRINT_ONE_BLOCK_COST * n <= 20000) by (nonlinear_arith)
            requires n <= 3, SPRINT_ONE_BLOCK_COST == 3564;
        Some(Edge {
            target: t,
            cost: 2 * JUMP_PENALTY + SPRINT_ONE_BLOCK_COST * n,
            kind: MoveKind::Parkour,
        })
    } else {
        None
    }
}

/// The land edges along `d` that may break blocks.
#[verifier::opaque]
pub open spec fn mining_edges_along(ctx: MoveCtx, w: CachedWorld, inv: Option<Seq<ToolReport>>, p: BlockPos, d: CardinalDirection) -> Seq<Edge> {
    opt_seq(traverse_spec(w, inv, ctx.allow_mining, p, d)) + opt_seq(diagonal_spec(w, p, d)) + opt_seq(
        ascend_spec(ctx, w, inv, p, d),
    ) + opt_seq(descend_spec(ctx, w, inv, p, d))
}

/// The land edges along `d` that never break blocks: falls and jumps.
#[verifier::opaque]
pub open spec fn open_edges_along(ctx: MoveCtx, w: CachedWorld, p: BlockPos, d: CardinalDirection) -> Seq<Edge> {
    opt_seq(fall_spec(ctx, w, p, d, 2)) + opt_seq(fall_spec(ctx, w, p, d, 3)) + opt_seq(
        parkour_spec(w, p, d, 1),
    ) + opt_seq(parkour_spec(w, p, d, 2)) + opt_seq(parkour_spec(w, p, d, 3)) + opt_seq(
        parkour_up_spec(w, p, d, 1),
    ) + opt_seq(parkour_up_spec(w, p, d, 2))
}

fn mining_moves_along(
    ctx: &MoveCtx,
    w: &CachedWorld,
    cache: &mut MiningCache,
    p: BlockPos,
    d: CardinalDirection,
    edges: &mut Vec<Edge>,
)
    requires
        node_ok(p),
        ctx.wf(),
        old(cache).wf(),
    ensures
        final(cache).wf(),
        final(cache).inventory() == old(cache).inventory(),
        forall|q: BlockPos| final(cache).avoid_until(q) == old(cache).avoid_until(q),
        final(edges)@ == old(edges)@ + mining_edges_along(*ctx, *w, old(cache).inventory(), p, d),
{
    let ghost e0 = edges@;
    let ghost inv = cache.inventory();
    let ghost s1 = opt_seq(traverse_spec(*w, inv, ctx.allow_mining, p, d));
    let ghost s2 = opt_seq(diagonal_spec(*w, p, d));
    let ghost s3 = opt_seq(ascend_spec(*ctx, *w, inv, p, d));
    let ghost s4 = opt_seq(descend_spec(*ctx, *w, inv, p, d));
    let e = traverse_move(w, cache, ctx.allow_mining, p, d);
    push_opt(edges, e);
    push_opt(edges, diagonal_move(w, p, d));
    let ghost e2 = edges@;
    assert(e2 == e0 + s1 + s2);
    let e = ascend_move(ctx, w, cache, p, d);
    push_opt(edges, e);
    let ghost e3 = edges@;
    assert(e3 == e2 + s3);
    let e = descend_move(ctx, w, cache, p, d);
    push_opt(edges, e);
    proof {
        assert(edges@ == e3 + s4);
        reveal(mining_edges_along);
        assert(mining_edges_along(*ctx, *w, inv, p, d) == s1 + s2 + s3 + s4);
        assert(edges@ =~= e0 + (s1 + s2 + s3 + s4));
    }
}

#[verifier::rlimit(80)]
fn open_moves_along(ctx: &MoveCtx, w: &CachedWorld, p: BlockPos, d: CardinalDirection, edges: &mut Vec<Edge>)
    requires
        node_ok(p),
        ctx.wf(),
    ensures
        final(edges)@ == old(edges)@ + open_edges_along(*ctx, *w, p, d),
{
    let ghost e0 = edges@;
    let ghost s1 = opt_seq(fall_spec(*ctx, *w, p, d, 2));
    let ghost s2 = opt_seq(fall_spec(*ctx, *w, p, d, 3));
    let ghost s3 = opt_seq(parkour_spec(*w, p, d, 1));
    let ghost s4 = opt_seq(parkour_spec(*w, p, d, 2));
    let ghost s5 = opt_seq(parkour_spec(*w, p, d, 3));
    let ghost s6 = opt_seq(parkour_up_spec(*w, p, d, 1));
    let ghost s7 = opt_seq(parkour_up_spec(*w, p, d, 2));
    push_opt(edges, fall_move(ctx, w, p, d, 2));
    push_opt(edges, fall_move(ctx, w, p, d, 3));
    let ghost e2 = edges@;
    assert(e2 == e0 + s1 + s2);
    push_opt(edges, parkour_move(w, p, d, 1));
    push_opt(edges, parkour_move(w, p, d, 2));
    push_opt(edges, parkour_move(w, p, d, 3));
    let ghost e5 = edges@;
    assert(e5 == e2 + s3 + s4 + s5);
    push_opt(edges, parkour_up_move(w, p, d, 1));
    push_opt(edges, parkour_up_move(w, p, d, 2));
    proof {
        assert(edges@ == e5 + s6 + s7);
        reveal(open_edges_along);
        assert(open_edges_along(*ctx, *w, p, d) == s1 + s2 + s3 + s4 + s5 + s6 + s7);
        assert(edges@ =~= e0 + (s1 + s2 + s3 + s4 + s5 + s6 + s7));
    }
}

fn land_moves_along(
    ctx: &MoveCtx,
    w: &CachedWorld,
    cache: &mut MiningCache,
    p: BlockPos,
    d: CardinalDirection,
    edges: &mut Vec<Edge>,
)
    requires
        node_ok(p),
        ctx.wf(),
        old(cache).wf(),
    ensures
        final(cache).wf(),
        final(cache).inventory() == old(cache).inventory(),
        forall|q: BlockPos| final(cache).avoid_until(q) == old(cache).avoid_until(q),
        final(edges)@ == old(edges)@ + land_edges_along(*ctx, *w, old(cache).inventory(), p, d),
{
    let ghost e0 = edges@;
    let ghost inv = cache.inventory();
    let ghost a = mining_edges_along(*ctx, *w, inv, p, d);
    let ghost b = open_edges_along(*ctx, *w, p, d);
    mining_moves_along(ctx, w, cache, p, d, edges);
    open_moves_along(ctx, w, p, d, edges);
    proof {
        reveal(land_edges_along);
        assert(land_edges_along(*ctx, *w, inv, p, d) =~= a + b);
        assert(edges@ =~= e0 + (a + b));
    }
}

/// Adds every edge from `p` to `edges`, in the order of `catalogue`.
pub fn default_moves(ctx: &MoveCtx, w: &CachedWorld, cache: &mut MiningCache, p: BlockPos, edges: &mut Vec<Edge>)
    requires
        node_ok(p),
        ctx.wf(),
        old(cache).wf(),
    ensures
        final(cache).wf(),
        final(cache).inventory() == old(cache).inventory(),
        forall|q: BlockPos| final(cache).avoid_until(q) == old(cache).avoid_until(q),
        final(edges)@ == old(edges)@ + catalogue(*ctx, *w, old(cache).inventory(), p),
{
    let ghost e0 = edges@;
    let ghost inv = cache.inventory();
    let ghost a = land_edges_along(*ctx, *w, inv, p, CardinalDirection::North);
    let ghost b = land_edges_along(*ctx, *w, inv, p, CardinalDirection::East);
    let ghost c = land_edges_along(*ctx, *w, inv, p, CardinalDirection::South);
    let ghost d = land_edges_along(*ctx, *w, inv, p, CardinalDirection::West);
    let ghost f = opt_seq(downward_spec(*ctx, *w, inv, p));
    let ghost g = water_edges(*w, p);
    land_moves_along(ctx, w, cache, p, CardinalDirection::North, edges);
    land_moves_along(ctx, w, cache, p, CardinalDirection::East, edges);
    land_moves_along(ctx, w, cache, p, CardinalDirection::South, edges);
    land_moves_along(ctx, w, cache, p, CardinalDirection::West, edges);
    let e = downward_move(ctx, w, cache, p);
    push_opt(edges, e);
    water_moves(w, p, edges);
    proof {
        assert(edges@ == e0 + a + b + c + d + f + g);
        reveal(catalogue);
        assert(catalogue(*ctx, *w, inv, p) == a + b + c + d + f + g);
        assert(e0 + a + b + c + d + f + g =~= e0 + (a + b + c + d + f + g));
    }
}

} // verus!
