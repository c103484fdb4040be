//! Movement costs, in thousandths of a game tick, and the fall-time model.
use vstd::prelude::*;
use vstd::arithmetic::div_mod::lemma_div_is_ordered;

verus! {

/// Thousandths of a tick in one tick.
pub const TICK: u64 = 1000;

/// Millionths of a block in one block.
pub const BLOCK: u64 = 1_000_000;

/// 20 / 4.317 ticks.
pub const WALK_ONE_BLOCK_COST: u64 = 4633;

/// 20 / 5.612 ticks.
pub const SPRINT_ONE_BLOCK_COST: u64 = 3564;

pub const WALK_OFF_BLOCK_COST: u64 = WALK_ONE_BLOCK_COST * 8 / 10;

pub const JUMP_PENALTY: u64 = 2000;

pub const CENTER_AFTER_FALL_COST: u64 = WALK_ONE_BLOCK_COST - WALK_OFF_BLOCK_COST;

/// A walk along a diagonal: the axis cost times the square root of two.
pub const DIAGONAL_WALK_COST: u64 = WALK_ONE_BLOCK_COST * 14142 / 10000;

/// The heuristic multiplier of the planner.
pub const COST_HEURISTIC: u64 = 3563;

/// Added to every block break, so that paths avoid breaking when they can.
pub const BLOCK_BREAK_ADDITIONAL_PENALTY: u64 = 2000;

pub const WATER_WALK_COST: u64 = WALK_ONE_BLOCK_COST * 11 / 10;

pub const SWIMMING_COST: u64 = WALK_ONE_BLOCK_COST * 18 / 10;

pub const WATER_ASCENT_COST: u64 = SWIMMING_COST * 13 / 10;

pub const WATER_DESCENT_COST: u64 = SWIMMING_COST * 9 / 10;

pub const SPRINT_SWIMMING_COST: u64 = WALK_ONE_BLOCK_COST * 15 / 10;

pub const FLOW_RESISTANCE_COST: u64 = SWIMMING_COST * 2 / 10;

pub const WATER_ENTRY_COST: u64 = 2000;

pub const WATER_EXIT_COST: u64 = 1500;

pub const AIR_DEPLETION_PENALTY: u64 = 10000;

pub const DROWNING_AVOIDANCE_COST: u64 = 50000;

/// Distance fallen during tick `t`, in millionths of a block: the velocity
/// `3.92 * (1 - 0.98^t)`, kept by its recurrence `v(t+1) = 0.98 v(t) + 0.0784`.
pub open spec fn fall_velocity(t: nat) -> nat
    decreases t,
{
    if t == 0 {
        0
    } else {
        fall_velocity((t - 1) as nat) * 98 / 100 + 78400
    }
}

/// Ticks, in thousandths, to fall the remaining distance `r` from the start
/// of tick `t`.
pub open spec fn ticks_from(r: nat, t: nat) -> nat
    decreases r, (if t == 0 { 1nat } else { 0nat }),
{
    let v = fall_velocity(t);
    if r <= v {
        if v == 0 {
            t * 1000
        } else {
            t * 1000 + r * 1000 / v
        }
    } else {
        ticks_from((r - v) as nat, t + 1)
    }
}

/// Ticks, in thousandths, to fall `d` millionths of a block from rest.
pub open spec fn fall_ticks(d: nat) -> nat {
    if d == 0 {
        0
    } else {
        ticks_from(d, 1)
    }
}

/// Distance fallen before tick `t` begins.
pub open spec fn consumed(t: nat) -> nat
    decreases t,
{
    if t <= 1 {
        0
    } else {
        consumed((t - 1) as nat) + fall_velocity((t - 1) as nat)
    }
}

pub proof fn lemma_velocity_bounds(t: nat)
    ensures
        fall_velocity(t) <= 3_920_000,
        t >= 1 ==> fall_velocity(t) >= 78400,
    decreases t,
{
    if t > 0 {
        lemma_velocity_bounds((t - 1) as nat);
    }
}

proof fn lemma_consumed_grows(t: nat)
    requires
        t >= 1,
    ensures
        consumed(t) >= (t - 1) * 78400,
    decreases t,
{
    if t > 1 {
        lemma_consumed_grows((t - 1) as nat);
        lemma_velocity_bounds((t - 1) as nat);
    }
}

/// Falling `d` from tick 1 is falling what is left after `t - 1` ticks.
proof fn lemma_skip_ticks(d: nat, t: nat)
    requires
        t >= 1,
        d > consumed(t),
    ensures
        ticks_from(d, 1) == ticks_from((d - consumed(t)) as nat, t),
    decreases t,
{
    if t > 1 {
        let p = (t - 1) as nat;
        lemma_skip_ticks(d, p);
    }
}

proof fn lemma_ticks_at_least(r: nat, t: nat)
    requires
        t >= 1,
    ensures
        ticks_from(r, t) >= t * 1000,
    decreases r,
{
    lemma_velocity_bounds(t);
    if r > fall_velocity(t) {
        lemma_ticks_at_least((r - fall_velocity(t)) as nat, t + 1);
    }
}

/// Falling `r` from tick `t` ends within a tick of `r / 0.0784` more ticks.
pub proof fn lemma_ticks_upper(r: nat, t: nat)
    requires
        t >= 1,
    ensures
        ticks_from(r, t) <= t * 1000 + (r / 78400) * 1000 + 1000,
    decreases r,
{
    lemma_velocity_bounds(t);
    let v = fall_velocity(t);
    if r <= v {
        assert(r * 1000 / v <= 1000) by (nonlinear_arith)
            requires r <= v, v > 0;
    } else {
        lemma_ticks_upper((r - v) as nat, t + 1);
        assert(((r - v) as nat) / 78400 + 1 <= r / 78400) by (nonlinear_arith)
            requires v >= 78400, r > v;
    }
}

/// A fall of `n` whole blocks, for `n` up to 3, takes at most 40 ticks.
pub proof fn lemma_short_fall_bounded(n: nat)
    requires
        n <= 3,
    ensures
        fall_ticks(n * 1_000_000) <= 40_000,
{
    if n > 0 {
        lemma_ticks_upper(n * 1_000_000, 1);
    }
}

/// A jump costs at most 20 ticks.
pub proof fn lemma_jump_cost_bounded()
    ensures
        fall_ticks(1_250_000) <= 20_000,
        fall_ticks(250_000) <= fall_ticks(1_250_000),
{
    lemma_ticks_upper(1_250_000, 1);
    lemma_ticks_monotone(250_000, 1_250_000, 1);
}

/// Falling farther never takes less time.
pub proof fn lemma_ticks_monotone(a: nat, b: nat, t: nat)
    requires
        t >= 1,
        a <= b,
    ensures
        ticks_from(a, t) <= ticks_from(b, t),
    decreases b,
{
    lemma_velocity_bounds(t);
    let v = fall_velocity(t);
    if b <= v {
        lemma_div_is_ordered((a * 1000) as int, (b * 1000) as int, v as int);
    } else if a <= v {
        lemma_div_is_ordered((a * 1000) as int, (v * 1000) as int, v as int);
        assert(v * 1000 / v == 1000) by (nonlinear_arith)
            requires v > 0;
        lemma_ticks_at_least((b - v) as nat, t + 1);
    } else {
        lemma_ticks_monotone((a - v) as nat, (b - v) as nat, t + 1);
    }
}

fn next_velocity(v: u64) -> (r: u64)
    requires
        v <= 3_920_000,
    ensures
        r == v * 98 / 100 + 78400,
        r <= 3_920_000,
{
    v * 98 / 100 + 78400
}

/// Ticks, in thousandths, to fall `distance` millionths of a block from rest.
pub fn distance_to_ticks(distance: u64) -> (r: u64)
    ensures
        r == fall_ticks(distance as nat),
{
    if distance == 0 {
        return 0;
    }
    let mut rem: u64 = distance;
    let mut t: u64 = 1;
    let mut v: u64 = 78400;
    proof {
        lemma_velocity_bounds(0);
        lemma_velocity_bounds(1);
        assert(consumed(1) == 0);
    }
    loop
        invariant
            t >= 1,
            v == fall_velocity(t as nat),
            rem > 0,
            rem + consumed(t as nat) == distance,
        decreases rem,
    {
        proof {
            lemma_velocity_bounds(t as nat);
            lemma_consumed_grows(t as nat);
            lemma_skip_ticks(distance as nat, t as nat);
        }
        if rem <= v {
            assert(t * 1000 <= distance * 1000 / 78400 + 1000) by (nonlinear_arith)
                requires (t - 1) * 78400 <= distance, t >= 1;
            assert(distance * 1000 / 78400 <= u64::MAX / 2) by (nonlinear_arith)
                requires distance <= u64::MAX;
            assert((rem as int) * 1000 / (v as int) <= 1000) by (nonlinear_arith)
                requires rem <= v, v > 0;
            return t * 1000 + rem * 1000 / v;
        }
        rem = rem - v;
        proof {
            assert(consumed((t + 1) as nat) == consumed(t as nat) + fall_velocity(t as nat));
        }
        assert(t < u64::MAX) by (nonlinear_arith)
            requires (t - 1) * 78400 <= distance, t >= 1, distance <= u64::MAX;
        t = t + 1;
        v = next_velocity(v);
    }
}

/// Number of entries in the fall-cost table: falls of 0 to 4096 blocks.
pub const FALL_TABLE_LEN: usize = 4097;

/// The cost of falling each whole number of blocks, `0..=4096`, computed in
/// one pass over the ticks of a single fall.
pub fn fall_n_blocks_cost_table() -> (r: Vec<u64>)
    ensures
        r.len() == FALL_TABLE_LEN,
        forall|n: int| 0 <= n < FALL_TABLE_LEN ==> r[n] == fall_ticks((n * BLOCK) as nat),
{
    let mut table: Vec<u64> = Vec::new();
    table.push(0);
    let mut rem: u64 = 0;
    let mut t: u64 = 1;
    let mut v: u64 = 78400;
    let mut n: u64 = 0;
    proof {
        assert(fall_velocity(0) == 0);
        assert(fall_velocity(1) == 78400);
    }
    while n < 4096
        invariant
            table.len() == n + 1,
            n <= 4096,
            forall|i: int| 0 <= i <= n ==> table[i] == fall_ticks((i * BLOCK) as nat),
            t >= 1,
            v == fall_velocity(t as nat),
            rem + consumed(t as nat) == n * BLOCK,
            n > 0 ==> rem > 0,
        decreases 4096 - n,
    {
        n = n + 1;
        rem = rem + BLOCK;
        while rem > v
            invariant
                t >= 1,
                v == fall_velocity(t as nat),
                rem > 0,
                rem + consumed(t as nat) == n * BLOCK,
                n <= 4096,
            decreases rem,
        {
            proof {
                lemma_velocity_bounds(t as nat);
                lemma_consumed_grows(t as nat);
                assert(consumed((t + 1) as nat) == consumed(t as nat) + fall_velocity(t as nat));
            }
            rem = rem - v;
            t = t + 1;
            v = next_velocity(v);
        }
        proof {
            lemma_velocity_bounds(t as nat);
            lemma_consumed_grows(t as nat);
            lemma_skip_ticks((n * BLOCK) as nat, t as nat);
        }
        assert(t * 1000 <= 60_000_000) by (nonlinear_arith)
            requires (t - 1) * 78400 <= n * 1_000_000, n <= 4096, t >= 1;
        assert((rem as int) * 1000 / (v as int) <= 1000) by (nonlinear_arith)
            requires rem <= v, v > 0;
        table.push(t * 1000 + rem * 1000 / v);
    }
    table
}

/// Ticks, in thousandths, of a jump up one block: falling 1.25 blocks less
/// falling 0.25 blocks.
pub fn jump_one_block_cost() -> (r: u64)
    ensures
        r == fall_ticks(1_250_000) - fall_ticks(250_000),
{
    let high = distance_to_ticks(1_250_000);
    let low = distance_to_ticks(250_000);
    proof {
        lemma_ticks_monotone(250_000, 1_250_000, 1);
    }
    high - low
}

} // verus!
