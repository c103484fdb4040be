//! Goals of the planner: a heuristic toward them and a test of success.
use vstd::prelude::*;
use crate::pos::{BlockPos, manhattan};
use crate::mining_goals::{MiningGoal, NO_TARGET};

verus! {

/// Mining goals with weights, in thousandths; the heuristic is the least
/// weighted heuristic, and any goal reached is success.
#[derive(Clone, Debug)]
pub struct PriorizedMiningGoal {
    pub goals: Vec<(MiningGoal, u64)>,
}

/// `h * w`, capped at `NO_TARGET`.
pub open spec fn weighted(h: int, w: int) -> int {
    if h * w > NO_TARGET { NO_TARGET as int } else { h * w }
}

pub open spec fn min_weighted(gs: Seq<(MiningGoal, u64)>, pos: BlockPos) -> int
    decreases gs.len(),
{
    if gs.len() == 0 {
        NO_TARGET as int
    } else {
        let rest = min_weighted(gs.drop_last(), pos);
        let h = weighted(gs.last().0.heuristic_spec(pos), gs.last().1 as int);
        if h < rest { h } else { rest }
    }
}

fn weighted_exec(h: u128, w: u64) -> (r: u128)
    ensures
        r == weighted(h as int, w as int),
{
    if w != 0 && h > NO_TARGET / (w as u128) {
        assert(h * w > NO_TARGET) by (nonlinear_arith)
            requires w > 0, h > NO_TARGET / (w as u128);
        NO_TARGET
    } else {
        assert(h * w <= NO_TARGET) by (nonlinear_arith)
            requires w == 0 || h <= NO_TARGET / (w as u128);
        h * (w as u128)
    }
}

impl PriorizedMiningGoal {
    pub open spec fn heuristic_spec(&self, pos: BlockPos) -> int {
        min_weighted(self.goals@, pos)
    }

    pub open spec fn success_spec(&self, pos: BlockPos) -> bool {
        exists|i: int| 0 <= i < self.goals@.len() && (#[trigger] self.goals@[i]).0.success_spec(pos)
    }

    pub fn heuristic(&self, pos: BlockPos) -> (r: u128)
        ensures
            r == self.heuristic_spec(pos),
    {
        let mut best: u128 = NO_TARGET;
        let mut i: usize = 0;
        while i < self.goals.len()
            invariant
                i <= self.goals@.len(),
                best == min_weighted(self.goals@.subrange(0, i as int), pos),
            decreases self.goals@.len() - i,
        {
            proof {
                assert(self.goals@.subrange(0, i + 1).drop_last() == self.goals@.subrange(0, i as int));
            }
            let h = weighted_exec(self.goals[i].0.heuristic(pos), self.goals[i].1);
            if h < best {
                best = h;
            }
            i = i + 1;
        }
        proof {
            assert(self.goals@.subrange(0, self.goals@.len() as int) == self.goals@);
        }
        best
    }

    pub fn success(&self, pos: BlockPos) -> (r: bool)
        ensures
            r == self.success_spec(pos),
    {
        let mut i: usize = 0;
        while i < self.goals.len()
            invariant
                i <= self.goals@.len(),
                forall|j: int| 0 <= j < i ==> !(#[trigger] self.goals@[j]).0.success_spec(pos),
            decreases self.goals@.len() - i,
        {
            if self.goals[i].0.success(pos) {
                return true;
            }
            i = i + 1;
        }
        false
    }
}

/// Anything the planner can aim for.
#[derive(Clone, Debug)]
pub enum Goal {
    /// Stand exactly at a position.
    Block(BlockPos),
    Mining(MiningGoal),
    Prioritised(PriorizedMiningGoal),
}

impl Goal {
    /// The heuristic: the Manhattan distance for a position goal, else that
    /// of the mining goal.
    pub open spec fn heuristic_spec(&self, pos: BlockPos) -> int {
        match self {
            Goal::Block(t) => manhattan(*t, pos),
            Goal::Mining(g) => g.heuristic_spec(pos),
            Goal::Prioritised(g) => g.heuristic_spec(pos),
        }
    }

    pub open spec fn success_spec(&self, pos: BlockPos) -> bool {
        match self {
            Goal::Block(t) => pos == *t,
            Goal::Mining(g) => g.success_spec(pos),
            Goal::Prioritised(g) => g.success_spec(pos),
        }
    }

    pub fn heuristic(&self, pos: BlockPos) -> (r: u128)
        ensures
            r == self.heuristic_spec(pos),
    {
        match self {
            Goal::Block(t) => t.manhattan_to(pos) as u128,
            Goal::Mining(g) => g.heuristic(pos),
            Goal::Prioritised(g) => g.heuristic(pos),
        }
    }

    pub fn success(&self, pos: BlockPos) -> (r: bool)
        ensures
            r == self.success_spec(pos),
    {
        match self {
            Goal::Block(t) => pos == *t,
            Goal::Mining(g) => g.success(pos),
            Goal::Prioritised(g) => g.success(pos),
        }
    }
}

} // verus!
