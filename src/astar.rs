//! A* search over the move catalogue, with a node budget and best-effort
//! partial paths.
use vstd::prelude::*;
use crate::pos::BlockPos;
use crate::costs::COST_HEURISTIC;
use crate::world::{CachedWorld, node_ok, NODE_LIMIT};
use crate::mining::{MiningCache, ToolReport};
use crate::moves::{Edge, MoveKind, MoveCtx, catalogue, default_moves};
use crate::goals::Goal;
use crate::vein::contains_pos;

verus! {

/// How many nodes to pop at least, and at most: past the minimum the search
/// goes on only while each expansion finds a node nearer the goal.
#[derive(Clone, Copy, Debug, PartialEq, Eq, Hash, Structural)]
pub struct PathfinderTimeout {
    pub min_nodes: u64,
    pub max_nodes: u64,
}

#[derive(Clone, Copy, Debug, PartialEq, Eq, Hash, Structural)]
pub enum PathError {
    /// No node nearer the goal than the start was found.
    NoPathFound,
}

/// The edges to follow from the start, their total cost, whether the path
/// stops short of the goal, and how the search ended.
#[derive(Clone, Debug)]
pub struct PathResult {
    pub movements: Vec<Edge>,
    pub cost: u64,
    pub is_partial: bool,
    /// Nodes taken from the open set.
    pub nodes_expanded: u64,
    /// The open set ran empty.
    pub exhausted: bool,
}

/// Each edge of `path` is in the catalogue at the node it leaves, the first
/// leaving `s`.
pub open spec fn path_from(ctx: MoveCtx, w: CachedWorld, inv: Option<Seq<ToolReport>>, s: BlockPos, path: Seq<Edge>) -> bool
    decreases path.len(),
{
    if path.len() == 0 {
        true
    } else {
        catalogue(ctx, w, inv, s).contains(path[0]) && path_from(
            ctx,
            w,
            inv,
            path[0].target,
            path.drop_first(),
        )
    }
}

/// Where `path` ends when it starts at `s`.
pub open spec fn path_end(s: BlockPos, path: Seq<Edge>) -> BlockPos {
    if path.len() == 0 {
        s
    } else {
        path.last().target
    }
}

/// The sum of the edge costs of `path`.
pub open spec fn path_cost(path: Seq<Edge>) -> int
    decreases path.len(),
{
    if path.len() == 0 {
        0
    } else {
        path[0].cost + path_cost(path.drop_first())
    }
}

#[derive(Clone, Copy, Debug, PartialEq, Eq, Hash, Structural)]
struct Node {
    pos: BlockPos,
    g: u64,
    h: u128,
    parent: usize,
    edge: Edge,
}

/// Every node but the first was reached by a catalogue edge from an earlier
/// node, at that node's cost plus the edge's.
#[verifier::opaque]
spec fn arena_ok(nodes: Seq<Node>, ctx: MoveCtx, w: CachedWorld, inv: Option<Seq<ToolReport>>, start: BlockPos, goal: Goal) -> bool {
    &&& nodes.len() >= 1
    &&& nodes[0].pos == start
    &&& nodes[0].g == 0
    &&& forall|i: int|
        #![trigger nodes[i]]
        0 <= i < nodes.len() ==> nodes[i].h == goal.heuristic_spec(nodes[i].pos)
    &&& forall|i: int|
        #![trigger nodes[i]]
        1 <= i < nodes.len() ==> {
            &&& nodes[i].parent < i
            &&& catalogue(ctx, w, inv, nodes[nodes[i].parent as int].pos).contains(nodes[i].edge)
            &&& nodes[i].edge.target == nodes[i].pos
            &&& nodes[i].g == nodes[nodes[i].parent as int].g + nodes[i].edge.cost
        }
}

/// The priority of a node: cost so far plus the weighted heuristic, capped.
spec fn f_value(n: Node) -> int {
    let f = n.g + n.h * COST_HEURISTIC;
    if f > u128::MAX { u128::MAX as int } else { f }
}

fn f_of(n: &Node) -> (r: u128)
    ensures
        r == f_value(*n),
{
    let g = n.g as u128;
    let h = n.h;
    let m: u128 = 3563;
    let limit = (u128::MAX - g) / m;
    if h > limit {
        assert(g + h * m > u128::MAX) by (nonlinear_arith)
            requires h > limit, limit == (u128::MAX - g) / (m as int), m == 3563, g <= u64::MAX;
        u128::MAX
    } else {
        assert(g + h * m <= u128::MAX) by (nonlinear_arith)
            requires h <= limit, limit == (u128::MAX - g) / (m as int), m == 3563, g <= u64::MAX;
        g + h * m
    }
}

/// The open entry to expand next: least priority, then least heuristic,
/// then earliest found.
fn pick_best(nodes: &Vec<Node>, open: &Vec<usize>) -> (r: usize)
    requires
        open@.len() > 0,
        forall|j: int| 0 <= j < open@.len() ==> open@[j] < nodes@.len(),
    ensures
        r < open@.len(),
        forall|j: int| 0 <= j < open@.len() ==> f_value(nodes@[open@[r as int] as int]) <= f_value(
            #[trigger] nodes@[open@[j] as int],
        ),
{
    let mut best: usize = 0;
    let mut best_f = f_of(&nodes[open[0]]);
    let mut j: usize = 1;
    while j < open.len()
        invariant
            1 <= j <= open@.len(),
            best < open@.len(),
            forall|q: int| 0 <= q < open@.len() ==> open@[q] < nodes@.len(),
            best_f == f_value(nodes@[open@[best as int] as int]),
            forall|q: int| 0 <= q < j ==> best_f <= f_value(#[trigger] nodes@[open@[q] as int]),
        decreases open@.len() - j,
    {
        let n = nodes[open[j]];
        let f = f_of(&n);
        let cur = nodes[open[best]];
        if f < best_f || (f == best_f && (n.h < cur.h || (n.h == cur.h && open[j] < open[best]))) {
            best = j;
            best_f = f;
        }
        j = j + 1;
    }
    best
}

/// Some node of the arena is at `p`.
spec fn has_node(nodes: Seq<Node>, p: BlockPos) -> bool {
    exists|j: int| 0 <= j < nodes.len() && (#[trigger] nodes[j]).pos == p
}

/// Node `best` has the least heuristic of the arena.
spec fn best_least(nodes: Seq<Node>, best: int) -> bool {
    forall|j: int| 0 <= j < nodes.len() ==> nodes[best].h <= (#[trigger] nodes[j]).h
}

proof fn lemma_has_node_grows(a: Seq<Node>, b: Seq<Node>, p: BlockPos)
    requires
        has_node(a, p),
        a.len() <= b.len(),
        b.take(a.len() as int) == a,
    ensures
        has_node(b, p),
{
    let j = choose|j: int| 0 <= j < a.len() && (#[trigger] a[j]).pos == p;
    assert(b.take(a.len() as int)[j] == b[j]);
}

proof fn lemma_arena_h(nodes: Seq<Node>, ctx: MoveCtx, w: CachedWorld, inv: Option<Seq<ToolReport>>, start: BlockPos, goal: Goal, j: int)
    requires
        arena_ok(nodes, ctx, w, inv, start, goal),
        0 <= j < nodes.len(),
    ensures
        nodes[j].h == goal.heuristic_spec(nodes[j].pos),
{
    reveal(arena_ok);
}

proof fn lemma_no_improvement(
    nodes: Seq<Node>,
    ctx: MoveCtx,
    w: CachedWorld,
    inv: Option<Seq<ToolReport>>,
    start: BlockPos,
    goal: Goal,
    best: int,
)
    requires
        arena_ok(nodes, ctx, w, inv, start, goal),
        0 <= best < nodes.len(),
        best_least(nodes, best),
        nodes[best].h >= goal.heuristic_spec(start),
        forall|e: Edge| catalogue(ctx, w, inv, start).contains(e) ==> has_node(nodes, e.target),
    ensures
        forall|e: Edge|
            catalogue(ctx, w, inv, start).contains(e) ==> goal.heuristic_spec(e.target) >= goal.heuristic_spec(start),
{
    assert forall|e: Edge| catalogue(ctx, w, inv, start).contains(e) implies goal.heuristic_spec(e.target)
        >= goal.heuristic_spec(start) by {
        assert(has_node(nodes, e.target));
        let j = choose|j: int| 0 <= j < nodes.len() && (#[trigger] nodes[j]).pos == e.target;
        lemma_arena_h(nodes, ctx, w, inv, start, goal, j);
        assert(nodes[best].h <= nodes[j].h);
    }
}

/// Whether a node at `pos` with cost at most `g` is already in the arena.
fn reached_as_cheaply(nodes: &Vec<Node>, pos: BlockPos, g: u64) -> (r: bool)
    ensures
        r ==> has_node(nodes@, pos),
{
    let mut i: usize = 0;
    while i < nodes.len()
        invariant
            i <= nodes@.len(),
        decreases nodes@.len() - i,
    {
        if nodes[i].pos == pos && nodes[i].g <= g {
            return true;
        }
        i = i + 1;
    }
    false
}

fn node_ok_exec(p: BlockPos) -> (r: bool)
    ensures
        r == node_ok(p),
{
    -NODE_LIMIT <= p.x && p.x <= NODE_LIMIT && -NODE_LIMIT <= p.y && p.y <= NODE_LIMIT && -NODE_LIMIT
        <= p.z && p.z <= NODE_LIMIT
}

/// The edges from the start to node `k`.
fn reconstruct(
    nodes: &Vec<Node>,
    k: usize,
    Ghost(ctx): Ghost<MoveCtx>,
    Ghost(w): Ghost<CachedWorld>,
    Ghost(inv): Ghost<Option<Seq<ToolReport>>>,
    Ghost(start): Ghost<BlockPos>,
    Ghost(goal): Ghost<Goal>,
) -> (r: Vec<Edge>)
    requires
        arena_ok(nodes@, ctx, w, inv, start, goal),
        k < nodes@.len(),
    ensures
        path_from(ctx, w, inv, start, r@),
        path_end(start, r@) == nodes@[k as int].pos,
        path_cost(r@) == nodes@[k as int].g,
        k == 0 ==> r@.len() == 0,
{
    let mut path: Vec<Edge> = Vec::new();
    let mut cur = k;
    while cur != 0
        invariant
            arena_ok(nodes@, ctx, w, inv, start, goal),
            cur < nodes@.len(),
            k < nodes@.len(),
            cur <= k,
            k == 0 ==> path@.len() == 0,
            path_from(ctx, w, inv, nodes@[cur as int].pos, path@),
            path_end(nodes@[cur as int].pos, path@) == nodes@[k as int].pos,
            path_cost(path@) + nodes@[cur as int].g == nodes@[k as int].g,
        decreases cur,
    {
        let n = nodes[cur];
        let ghost before = path@;
        proof {
            reveal(arena_ok);
            assert(nodes@[cur as int].parent < cur);
        }
        path.insert(0, n.edge);
        proof {
            assert(nodes@[cur as int] == n);
            assert(path@[0] == n.edge);
            assert(path@.drop_first() == before);
        }
        cur = n.parent;
    }
    proof {
        reveal(arena_ok);
    }
    path
}

#[verifier::rlimit(60)]
proof fn lemma_push_node(
    nodes: Seq<Node>,
    n: Node,
    ctx: MoveCtx,
    w: CachedWorld,
    inv: Option<Seq<ToolReport>>,
    start: BlockPos,
    goal: Goal,
)
    requires
        arena_ok(nodes, ctx, w, inv, start, goal),
        n.parent < nodes.len(),
        catalogue(ctx, w, inv, nodes[n.parent as int].pos).contains(n.edge),
        n.edge.target == n.pos,
        n.g == nodes[n.parent as int].g + n.edge.cost,
        n.h == goal.heuristic_spec(n.pos),
    ensures
        arena_ok(nodes.push(n), ctx, w, inv, start, goal),
{
    reveal(arena_ok);
    let s = nodes.push(n);
    assert forall|q: int| #![trigger s[q]] 1 <= q < s.len() implies {
        &&& s[q].parent < q
        &&& catalogue(ctx, w, inv, s[s[q].parent as int].pos).contains(s[q].edge)
        &&& s[q].edge.target == s[q].pos
        &&& s[q].g == s[s[q].parent as int].g + s[q].edge.cost
    } by {
        if q < nodes.len() {
            assert(s[q] == nodes[q]);
            assert(s[nodes[q].parent as int] == nodes[nodes[q].parent as int]);
        } else {
            assert(s[n.parent as int] == nodes[n.parent as int]);
        }
    }
    assert forall|q: int| #![trigger s[q]] 0 <= q < s.len() implies s[q].h == goal.heuristic_spec(s[q].pos) by {
        if q < nodes.len() {
            assert(s[q] == nodes[q]);
        }
    }
}

/// Adds the catalogue's edges from node `ni` to the arena and the open
/// list; tells whether a node nearer the goal than node `best` was found.
fn expand(
    ctx: &MoveCtx,
    world: &CachedWorld,
    cache: &mut MiningCache,
    goal: &Goal,
    nodes: &mut Vec<Node>,
    open: &mut Vec<usize>,
    expanded: &Vec<BlockPos>,
    best: &mut usize,
    ni: usize,
    Ghost(start): Ghost<BlockPos>,
)
    requires
        ctx.wf(),
        old(cache).wf(),
        arena_ok(old(nodes)@, *ctx, *world, old(cache).inventory(), start, *goal),
        ni < old(nodes)@.len(),
        node_ok(old(nodes)@[ni as int].pos),
        forall|j: int| 0 <= j < old(open)@.len() ==> old(open)@[j] < old(nodes)@.len(),
        *old(best) < old(nodes)@.len(),
        best_least(old(nodes)@, *old(best) as int),
    ensures
        best_least(final(nodes)@, *final(best) as int),
        forall|e: Edge|
            catalogue(*ctx, *world, old(cache).inventory(), old(nodes)@[ni as int].pos).contains(e) && e.cost
                <= u64::MAX - old(nodes)@[ni as int].g ==> expanded@.contains(e.target) || has_node(
                final(nodes)@,
                e.target,
            ),
        final(cache).wf(),
        final(cache).inventory() == old(cache).inventory(),
        arena_ok(final(nodes)@, *ctx, *world, old(cache).inventory(), start, *goal),
        forall|j: int| 0 <= j < final(open)@.len() ==> final(open)@[j] < final(nodes)@.len(),
        *final(best) < final(nodes)@.len(),
        final(nodes)@[*final(best) as int].h <= old(nodes)@[*old(best) as int].h,
        final(nodes)@.len() >= old(nodes)@.len(),
        final(nodes)@.take(old(nodes)@.len() as int) == old(nodes)@,
{
    let ghost inv = cache.inventory();
    let ghost nodes0 = nodes@;
    let ghost best0 = *best;
    let n = nodes[ni];
    let mut edges: Vec<Edge> = Vec::new();
    default_moves(ctx, world, cache, n.pos, &mut edges);
    let mut i: usize = 0;
    while i < edges.len()
        invariant
            cache.wf(),
            cache.inventory() == inv,
            ni < nodes@.len(),
            nodes@[ni as int] == n,
            edges@ == catalogue(*ctx, *world, inv, n.pos),
            arena_ok(nodes@, *ctx, *world, inv, start, *goal),
            forall|j: int| 0 <= j < open@.len() ==> open@[j] < nodes@.len(),
            *best < nodes@.len(),
            nodes@[*best as int].h <= nodes0[best0 as int].h,
            nodes@.len() >= nodes0.len(),
            nodes@.take(nodes0.len() as int) == nodes0,
            i <= edges@.len(),
            best_least(nodes@, *best as int),
            forall|q: int|
                0 <= q < i && (#[trigger] edges@[q]).cost <= u64::MAX - n.g ==> expanded@.contains(edges@[q].target)
                    || has_node(nodes@, edges@[q].target),
        decreases edges@.len() - i,
    {
        let e = edges[i];
        if e.cost <= u64::MAX - n.g {
            let g2 = n.g + e.cost;
            if !contains_pos(expanded, e.target) && !reached_as_cheaply(nodes, e.target, g2) {
                let h = goal.heuristic(e.target);
                let node = Node { pos: e.target, g: g2, h, parent: ni, edge: e };
                proof {
                    assert(edges@[i as int] == e);
                    lemma_push_node(nodes@, node, *ctx, *world, inv, start, *goal);
                }
                let ghost before = nodes@;
                nodes.push(node);
                proof {
                    assert(nodes@.take(nodes0.len() as int) == before.take(nodes0.len() as int));
                    assert(nodes@.take(before.len() as int) == before);
                    assert forall|q: int|
                        0 <= q < i && (#[trigger] edges@[q]).cost <= u64::MAX - n.g implies expanded@.contains(
                            edges@[q].target,
                        ) || has_node(nodes@, edges@[q].target) by {
                        if !expanded@.contains(edges@[q].target) {
                            lemma_has_node_grows(before, nodes@, edges@[q].target);
                        }
                    }
                    assert(nodes@[nodes@.len() - 1].pos == e.target);
                    assert(has_node(nodes@, e.target));
                }
                open.push(nodes.len() - 1);
                let ghost b0 = *best;
                proof {
                    assert(best_least(before, b0 as int));
                }
                if h < nodes[*best].h {
                    *best = nodes.len() - 1;
                }
                proof {
                    assert forall|j: int| 0 <= j < nodes@.len() implies nodes@[*best as int].h <= (
                        #[trigger] nodes@[j]).h by {
                        if j < before.len() {
                            assert(nodes@[j] == before[j]);
                            assert(before[b0 as int].h <= before[j].h);
                            assert(nodes@[b0 as int] == before[b0 as int]);
                        }
                    }
                }
            }
        }
        i = i + 1;
    }
    proof {
        assert forall|e: Edge|
            catalogue(*ctx, *world, inv, n.pos).contains(e) && e.cost <= u64::MAX - n.g implies expanded@.contains(
                e.target,
            ) || has_node(nodes@, e.target) by {
            let q = choose|q: int| 0 <= q < edges@.len() && edges@[q] == e;
            assert(edges@[q] == e);
        }
    }
}

/// A* from `start` toward `goal` over the catalogue's edges. A path that
/// reaches the goal is whole; otherwise the path to the node found with the
/// least heuristic is returned as partial, where that heuristic is below
/// the start's, and else there is no path.
#[verifier::rlimit(100)]
pub fn a_star(
    start: BlockPos,
    goal: &Goal,
    ctx: &MoveCtx,
    world: &CachedWorld,
    cache: &mut MiningCache,
    timeout: PathfinderTimeout,
) -> (r: Result<PathResult, PathError>)
    requires
        ctx.wf(),
        old(cache).wf(),
    ensures
        final(cache).wf(),
        final(cache).inventory() == old(cache).inventory(),
        r matches Ok(res) ==> {
            &&& path_from(*ctx, *world, old(cache).inventory(), start, res.movements@)
            &&& res.cost == path_cost(res.movements@)
            &&& !res.is_partial ==> goal.success_spec(path_end(start, res.movements@))
            &&& res.is_partial ==> goal.heuristic_spec(path_end(start, res.movements@))
                < goal.heuristic_spec(start)
            &&& res.is_partial ==> res.exhausted || res.nodes_expanded >= timeout.min_nodes
                || res.nodes_expanded >= timeout.max_nodes
        },
        goal.success_spec(start) && timeout.max_nodes > 0 ==> (r matches Ok(res) && res.movements@.len()
            == 0 && !res.is_partial),
        timeout.max_nodes > 0 && node_ok(start) && r is Err ==> forall|e: Edge|
            catalogue(*ctx, *world, old(cache).inventory(), start).contains(e) ==> goal.heuristic_spec(e.target)
                >= goal.heuristic_spec(start),
{
    let ghost inv = cache.inventory();
    let start_h = goal.heuristic(start);
    let mut nodes: Vec<Node> = Vec::new();
    nodes.push(
        Node {
            pos: start,
            g: 0,
            h: start_h,
            parent: 0,
            edge: Edge { target: start, cost: 0, kind: MoveKind::Traverse },
        },
    );
    proof {
        reveal(arena_ok);
    }
    let mut open: Vec<usize> = Vec::new();
    open.push(0);
    let mut expanded: Vec<BlockPos> = Vec::new();
    let mut best: usize = 0;
    let mut found: Option<usize> = None;
    let mut count: u64 = 0;
    let mut stop = false;
    while count < timeout.max_nodes && open.len() > 0 && found.is_none() && !stop
        invariant
            ctx.wf(),
            cache.wf(),
            cache.inventory() == inv,
            inv == old(cache).inventory(),
            arena_ok(nodes@, *ctx, *world, inv, start, *goal),
            forall|j: int| 0 <= j < open@.len() ==> open@[j] < nodes@.len(),
            best < nodes@.len(),
            nodes@[best as int].h <= start_h,
            start_h == goal.heuristic_spec(start),
            found matches Some(f) ==> f < nodes@.len() && goal.success_spec(nodes@[f as int].pos),
            count == 0 ==> open@ == seq![0usize] && nodes@.len() == 1 && found is None && !stop,
            goal.success_spec(start) && count > 0 ==> found == Some(0usize),
            nodes@.len() >= 1,
            nodes@[0].pos == start,
            nodes@[0].g == 0,
            best_least(nodes@, best as int),
            forall|k: int| 0 <= k < expanded@.len() ==> has_node(nodes@, #[trigger] expanded@[k]),
            count == 0 ==> expanded@.len() == 0,
            stop ==> count >= timeout.min_nodes,
            count >= 1 && !goal.success_spec(start) && node_ok(start) ==> forall|e: Edge|
                catalogue(*ctx, *world, inv, start).contains(e) ==> has_node(nodes@, e.target),
        decreases timeout.max_nodes - count,
    {
        count = count + 1;
        let k = pick_best(&nodes, &open);
        let ni = open[k];
        open.remove(k);
        let n = nodes[ni];
        if goal.success(n.pos) {
            found = Some(ni);
        } else if !contains_pos(&expanded, n.pos) && node_ok_exec(n.pos) {
            let ghost exp0 = expanded@;
            let ghost first = count == 1;
            expanded.push(n.pos);
            proof {
                assert(has_node(nodes@, n.pos)) by {
                    assert(nodes@[ni as int] == n);
                }
                assert forall|k: int| 0 <= k < expanded@.len() implies has_node(nodes@, #[trigger] expanded@[k]) by {
                    if k < exp0.len() {
                        assert(expanded@[k] == exp0[k]);
                    }
                }
            }
            let before_best = nodes[best].h;
            let ghost before = nodes@;
            expand(ctx, world, cache, goal, &mut nodes, &mut open, &expanded, &mut best, ni, Ghost(start));
            proof {
                assert(nodes@[0] == nodes@.take(before.len() as int)[0]);
                assert forall|k: int| 0 <= k < expanded@.len() implies has_node(nodes@, #[trigger] expanded@[k]) by {
                    lemma_has_node_grows(before, nodes@, expanded@[k]);
                }
                if count >= 1 && !goal.success_spec(start) && node_ok(start) {
                    assert forall|e: Edge| catalogue(*ctx, *world, inv, start).contains(e) implies has_node(
                        nodes@,
                        e.target,
                    ) by {
                        if first {
                            assert(ni == 0);
                            assert(n.pos == start && n.g == 0);
                            if expanded@.contains(e.target) {
                                let k = choose|k: int| 0 <= k < expanded@.len() && expanded@[k] == e.target;
                                assert(has_node(nodes@, expanded@[k]));
                            }
                        } else {
                            lemma_has_node_grows(before, nodes@, e.target);
                        }
                    }
                }
            }
            if count >= timeout.min_nodes && !(nodes[best].h < before_best) {
                stop = true;
            }
        }
    }
    match found {
        Some(f) => {
            let movements = reconstruct(&nodes, f, Ghost(*ctx), Ghost(*world), Ghost(inv), Ghost(start), Ghost(*goal));
            Ok(PathResult { movements, cost: nodes[f].g, is_partial: false, nodes_expanded: count, exhausted: open.len() == 0 })
        },
        None => {
            proof {
                if timeout.max_nodes > 0 && node_ok(start) {
                    assert(count >= 1);
                    assert(!goal.success_spec(start));
                    if !(nodes@[best as int].h < start_h) {
                        lemma_no_improvement(nodes@, *ctx, *world, inv, start, *goal, best as int);
                    }
                }
            }
            if nodes[best].h < start_h {
                let movements = reconstruct(&nodes, best, Ghost(*ctx), Ghost(*world), Ghost(inv), Ghost(start), Ghost(*goal));
                Ok(PathResult { movements, cost: nodes[best].g, is_partial: true, nodes_expanded: count, exhausted: open.len() == 0 })
            } else {
                Err(PathError::NoPathFound)
            }
        },
    }
}

} // verus!
