//! Block-breaking costs from the inventory's best-tool reports, cached per
//! block state, and positions to stay away from after a failure.
use vstd::prelude::*;
use crate::pos::BlockPos;
use crate::block::{BlockState, liquid, falling};
use crate::costs::BLOCK_BREAK_ADDITIONAL_PENALTY;
use crate::deadlines::{Deadlines, after_secs, deadline_after, unexpired};
use crate::world::CachedWorld;

verus! {

/// The slot to hold and the whole ticks that breaking takes with it: one
/// over the mining speed per tick, rounded up.
#[derive(Clone, Copy, Debug, PartialEq, Eq, Hash, Structural)]
pub struct BestTool {
    pub index: usize,
    pub ticks: u64,
}

/// The host inventory's answer for one block state: the best hotbar tool
/// for breaking it.
#[derive(Clone, Copy, Debug, PartialEq, Eq, Hash, Structural)]
pub struct ToolReport {
    pub state: BlockState,
    pub best: BestTool,
}

/// Breaks that take longer than this many ticks count as impossible.
pub const MAX_BREAK_TICKS: u64 = 1_000_000;

/// The inventory's best tool for `s`: the first report for it, if any.
pub open spec fn best_tool(reports: Seq<ToolReport>, s: BlockState) -> Option<BestTool>
    decreases reports.len(),
{
    if reports.len() == 0 {
        None
    } else if reports[0].state == s {
        Some(reports[0].best)
    } else {
        best_tool(reports.drop_first(), s)
    }
}

/// The cost, in thousandths of a tick, of breaking `s`: the ticks with the
/// best tool plus the break penalty; `None` (infinite) without an inventory,
/// where the inventory has no tool for it, or where it takes longer than
/// `MAX_BREAK_TICKS`.
pub open spec fn break_cost(inv: Option<Seq<ToolReport>>, s: BlockState) -> Option<int> {
    match inv {
        None => None,
        Some(reports) => match best_tool(reports, s) {
            None => None,
            Some(bt) => if bt.ticks > MAX_BREAK_TICKS {
                None
            } else {
                Some(bt.ticks * 1000 + BLOCK_BREAK_ADDITIONAL_PENALTY)
            },
        },
    }
}

/// A breaking cost is either infinite or at least the break penalty.
pub proof fn lemma_break_cost_at_least_penalty(inv: Option<Seq<ToolReport>>, s: BlockState)
    ensures
        break_cost(inv, s) is None || break_cost(inv, s)->0 >= BLOCK_BREAK_ADDITIONAL_PENALTY,
{
}

pub proof fn lemma_break_cost_bounded(inv: Option<Seq<ToolReport>>, s: BlockState)
    ensures
        break_cost(inv, s) matches Some(c) ==> c <= 1_000_002_000,
{
}

/// The inventory's best tool for `s`.
pub fn best_tool_for(reports: &Vec<ToolReport>, s: BlockState) -> (r: Option<BestTool>)
    ensures
        r == best_tool(reports@, s),
{
    let mut i: usize = 0;
    proof {
        assert(reports@.subrange(0, reports@.len() as int) == reports@);
    }
    while i < reports.len()
        invariant
            i <= reports@.len(),
            best_tool(reports@, s) == best_tool(reports@.subrange(i as int, reports@.len() as int), s),
        decreases reports@.len() - i,
    {
        proof {
            let rest = reports@.subrange(i as int, reports@.len() as int);
            assert(rest[0] == reports@[i as int]);
            assert(rest.drop_first() == reports@.subrange(i + 1, reports@.len() as int));
        }
        if reports[i].state == s {
            return Some(reports[i].best);
        }
        i = i + 1;
    }
    None
}

/// Where the world's block states come from.
pub trait BlockStateProvider {
    spec fn state_at(&self, p: BlockPos) -> BlockState;

    fn get_block_state(&self, pos: BlockPos) -> (r: BlockState)
        ensures
            r == self.state_at(pos),
    ;
}

impl BlockStateProvider for CachedWorld {
    open spec fn state_at(&self, p: BlockPos) -> BlockState {
        self.block_at(p)
    }

    fn get_block_state(&self, pos: BlockPos) -> (r: BlockState) {
        CachedWorld::get_block_state(self, pos)
    }
}

/// The cost of breaking the blocks at `ps` in order, starting with tool
/// `current` in hand: each break, plus one tick for each change of tool;
/// infinite if any block is.
pub open spec fn sequence_cost_spec<W: BlockStateProvider>(
    inv: Option<Seq<ToolReport>>,
    w: W,
    ps: Seq<BlockPos>,
    current: Option<usize>,
) -> Option<int>
    decreases ps.len(),
{
    if ps.len() == 0 {
        Some(0)
    } else {
        let s = w.state_at(ps[0]);
        match break_cost(inv, s) {
            None => None,
            Some(c) => {
                let t = best_tool(inv->0, s)->0.index;
                let switch = if current != Some(t) { 1000int } else { 0int };
                match sequence_cost_spec(inv, w, ps.drop_first(), Some(t)) {
                    None => None,
                    Some(rest) => Some(c + switch + rest),
                }
            },
        }
    }
}

/// A planned order of breaks: the blocks, the estimated time in
/// thousandths of a tick, and the tool slot used for each.
#[derive(Clone, Debug)]
pub struct MiningSequence {
    pub blocks: Vec<BlockPos>,
    pub estimated_time: u64,
    pub tool_switches: Vec<usize>,
}

/// Breaking costs and preferred tools, filled in lazily during a plan, and
/// positions to avoid until a deadline.
pub struct MiningCache {
    inventory: Option<Vec<ToolReport>>,
    /// A block state, its breaking cost and its best tool slot.
    known: Vec<(BlockState, u64, usize)>,
    avoid_blocks: Deadlines,
}

impl MiningCache {
    /// The hotbar that breaking costs are computed with, if any.
    pub closed spec fn inventory(&self) -> Option<Seq<ToolReport>> {
        match self.inventory {
            None => None,
            Some(v) => Some(v@),
        }
    }

    pub closed spec fn is_known(&self, s: BlockState) -> bool {
        exists|i: int| 0 <= i < self.known@.len() && self.known@[i].0 == s
    }

    /// The tool slot recorded for `s`, if its cost has been computed.
    pub open spec fn cached_tool(&self, s: BlockState) -> Option<usize> {
        if self.is_known(s) {
            Some(best_tool(self.inventory()->0, s)->0.index)
        } else {
            None
        }
    }

    /// The deadline until which `p` is avoided, if any.
    pub closed spec fn avoid_until(&self, p: BlockPos) -> Option<u64> {
        self.avoid_blocks.deadline(p)
    }

    pub closed spec fn wf(&self) -> bool {
        &&& self.avoid_blocks.wf()
        &&& forall|i: int|
            #![trigger self.known@[i]]
            0 <= i < self.known@.len() ==> {
                &&& self.inventory() is Some
                &&& best_tool(self.inventory()->0, self.known@[i].0) is Some
                &&& break_cost(self.inventory(), self.known@[i].0) == Some(self.known@[i].1 as int)
                &&& best_tool(self.inventory()->0, self.known@[i].0)->0.index == self.known@[i].2
            }
    }

    pub fn new(inventory: Option<Vec<ToolReport>>) -> (r: MiningCache)
        ensures
            r.wf(),
            r.inventory() == match inventory {
                None => None::<Seq<ToolReport>>,
                Some(v) => Some(v@),
            },
            forall|s: BlockState| !r.is_known(s),
            forall|p: BlockPos| r.avoid_until(p) is None,
    {
        MiningCache { inventory, known: Vec::new(), avoid_blocks: Deadlines::new() }
    }

    /// The cost of breaking `s`, in thousandths of a tick; `None` is infinite.
    pub fn cost_for(&mut self, s: BlockState) -> (r: Option<u64>)
        requires
            old(self).wf(),
        ensures
            final(self).wf(),
            final(self).inventory() == old(self).inventory(),
            forall|p: BlockPos| final(self).avoid_until(p) == old(self).avoid_until(p),
            r matches Some(c) ==> break_cost(old(self).inventory(), s) == Some(c as int),
            r is None ==> break_cost(old(self).inventory(), s) is None,
            r is Some ==> final(self).is_known(s),
            forall|q: BlockState| old(self).is_known(q) ==> final(self).is_known(q),
    {
        if self.inventory.is_none() {
            return None;
        }
        let mut i: usize = 0;
        while i < self.known.len()
            invariant
                i <= self.known.len(),
                self.wf(),
                self.inventory is Some,
            decreases self.known.len() - i,
        {
            if self.known[i].0 == s {
                return Some(self.known[i].1);
            }
            i = i + 1;
        }
        let bt = best_tool_for(self.inventory.as_ref().unwrap(), s);
        match bt {
            None => None,
            Some(b) => {
                if b.ticks > MAX_BREAK_TICKS {
                    return None;
                }
                let cost = b.ticks * 1000 + BLOCK_BREAK_ADDITIONAL_PENALTY;
                self.known.push((s, cost, b.index));
                proof {
                    let k = self.known@.len() - 1;
                    assert(self.known@[k].0 == s);
                    assert forall|q: BlockState| old(self).is_known(q) implies self.is_known(q) by {
                        let j = choose|j: int|
                            0 <= j < old(self).known@.len() && old(self).known@[j].0 == q;
                        assert(self.known@[j] == old(self).known@[j]);
                    }
                }
                Some(cost)
            },
        }
    }

    /// The tool slot recorded for `s` when its cost was computed.
    pub fn preferred_tool_for(&self, s: BlockState) -> (r: Option<usize>)
        requires
            self.wf(),
        ensures
            r == self.cached_tool(s),
    {
        let mut i: usize = 0;
        while i < self.known.len()
            invariant
                i <= self.known.len(),
                self.wf(),
                forall|j: int| 0 <= j < i ==> self.known@[j].0 != s,
            decreases self.known.len() - i,
        {
            if self.known[i].0 == s {
                return Some(self.known[i].2);
            }
            i = i + 1;
        }
        None
    }

    /// The cost of breaking the blocks at `blocks` in order, with one tick
    /// added for each change of tool; `None` (infinite) if any block is.
    pub fn sequence_cost<W: BlockStateProvider>(&mut self, blocks: &[BlockPos], world: &W) -> (r:
        Option<u64>)
        requires
            old(self).wf(),
            blocks@.len() <= u32::MAX,
        ensures
            final(self).wf(),
            final(self).inventory() == old(self).inventory(),
            forall|p: BlockPos| final(self).avoid_until(p) == old(self).avoid_until(p),
            r matches Some(c) ==> sequence_cost_spec(old(self).inventory(), *world, blocks@, None)
                == Some(c as int),
            r is None ==> sequence_cost_spec(old(self).inventory(), *world, blocks@, None) is None,
    {
        let ghost inv = old(self).inventory();
        proof {
            assert(blocks@.subrange(0, blocks@.len() as int) == blocks@);
        }
        let mut total: u64 = 0;
        let mut current: Option<usize> = None;
        let mut failed = false;
        let mut i: usize = 0;
        while i < blocks.len() && !failed
            invariant
                i <= blocks@.len(),
                blocks@.len() <= u32::MAX,
                self.wf(),
                self.inventory() == inv,
                forall|p: BlockPos| self.avoid_until(p) == old(self).avoid_until(p),
                total <= i * 1_000_003_000,
                failed ==> sequence_cost_spec(inv, *world, blocks@, None) is None,
                !failed ==> sequence_cost_spec(inv, *world, blocks@, None) == match sequence_cost_spec(
                    inv,
                    *world,
                    blocks@.subrange(i as int, blocks@.len() as int),
                    current,
                ) {
                    None => None,
                    Some(rest) => Some(total + rest),
                },
            decreases blocks@.len() - i + if failed { 0int } else { 1int },
        {
            let ghost rest = blocks@.subrange(i as int, blocks@.len() as int);
            proof {
                assert(rest[0] == blocks@[i as int]);
                assert(rest.drop_first() == blocks@.subrange(i + 1, blocks@.len() as int));
            }
            let st = world.get_block_state(blocks[i]);
            match self.cost_for(st) {
                None => {
                    failed = true;
                },
                Some(c) => {
                    proof {
                        lemma_break_cost_bounded(inv, st);
                    }
                    match self.preferred_tool_for(st) {
                        Some(t) => {
                            if current != Some(t) {
                                total = total + 1000;
                                current = Some(t);
                            }
                        },
                        None => {},
                    }
                    total = total + c;
                    i = i + 1;
                    proof {
                        assert(total <= i * 1_000_003_000) by (nonlinear_arith)
                            requires total <= (i - 1) * 1_000_003_000 + 1_000_003_000;
                    }
                },
            }
        }
        if failed {
            return None;
        }
        proof {
            assert(blocks@.subrange(i as int, blocks@.len() as int).len() == 0);
        }
        Some(total)
    }

    /// Avoids `pos` for `duration_seconds` from `now` (milliseconds).
    pub fn mark_block_inaccessible(&mut self, pos: BlockPos, duration_seconds: u64, now: u64)
        requires
            old(self).wf(),
        ensures
            final(self).wf(),
            final(self).inventory() == old(self).inventory(),
            forall|q: BlockState| final(self).cached_tool(q) == old(self).cached_tool(q),
            forall|p: BlockPos|
                final(self).avoid_until(p) == if p == pos {
                    Some(after_secs(now, duration_seconds))
                } else {
                    old(self).avoid_until(p)
                },
    {
        let until = deadline_after(now, duration_seconds);
        self.avoid_blocks.insert(pos, until);
    }

    /// Whether `pos` is still avoided at `now`.
    pub fn should_avoid_block(&self, pos: BlockPos, now: u64) -> (r: bool)
        requires
            self.wf(),
        ensures
            r == (self.avoid_until(pos) matches Some(u) && now < u),
    {
        self.avoid_blocks.is_held(pos, now)
    }

    /// Forgets the positions whose avoidance ended by `now`.
    pub fn cleanup_avoid_list(&mut self, now: u64)
        requires
            old(self).wf(),
        ensures
            final(self).wf(),
            final(self).inventory() == old(self).inventory(),
            forall|q: BlockState| final(self).cached_tool(q) == old(self).cached_tool(q),
            forall|p: BlockPos| final(self).avoid_until(p) == unexpired(old(self).avoid_until(p), now),
    {
        self.avoid_blocks.retain_unexpired(now);
    }

    /// Water, lava, or a block holding water.
    pub fn is_liquid(&self, s: BlockState) -> (r: bool)
        ensures
            r == liquid(s),
    {
        s.is_liquid()
    }

    /// Sand, gravel and the other blocks that fall when unsupported.
    pub fn is_falling_block(&self, s: BlockState) -> (r: bool)
        ensures
            r == falling(s),
    {
        s.is_falling_block()
    }
}

/// Whether the block holds water.
pub fn is_waterlogged(s: BlockState) -> (r: bool)
    ensures
        r == s.waterlogged,
{
    s.waterlogged
}

} // verus!
