//! The long-running mining loop: scan for targets, build a goal, blacklist
//! failures, and stop once enough has been mined.
use vstd::prelude::*;
use crate::pos::{BlockPos, dist_sq};
use crate::block::BlockState;
use crate::deadlines::{Deadlines, after_secs, deadline_after, unexpired};
use crate::mining::{MiningCache, ToolReport};
use crate::mining_goals::{MiningGoal, within_tenths, copy_positions};
use crate::goals::{Goal, PriorizedMiningGoal};
use crate::vein::{is_vein, connected_vein, contains_pos, vein_center, centroid, lemma_vein_reaches_seed};
use crate::sort::{sort_by_distance, sorted_by_key};
use crate::world_scanner::{WorldScanner, ScanRequest, Instance, is_hit, covered_block, ring_fits, section_block_pos};
use crate::pos::chunk_of;

verus! {

/// Settings of a mining process.
#[derive(Clone, Copy, Debug)]
pub struct MiningConfig {
    pub max_mining_distance: u32,
    pub max_ore_locations: usize,
    pub scan_interval_seconds: u64,
    pub legit_mining: bool,
    /// Preferred heights, lowest and highest.
    pub prefer_y_levels: Option<(i32, i32)>,
    pub blacklist_duration_seconds: u64,
    pub vein_detection_enabled: bool,
    /// Ores at most this far apart, in tenths of a block, share a vein.
    pub vein_max_distance_tenths: u32,
}

impl MiningConfig {
    /// A 256-block radius, 1000 locations, a scan every 10 s, 5 min
    /// blacklisting, and veins of ores at most 3 blocks apart.
    pub fn default() -> (r: MiningConfig)
        ensures
            r == (MiningConfig {
                max_mining_distance: 256,
                max_ore_locations: 1000,
                scan_interval_seconds: 10,
                legit_mining: false,
                prefer_y_levels: None,
                blacklist_duration_seconds: 300,
                vein_detection_enabled: true,
                vein_max_distance_tenths: 30,
            }),
    {
        MiningConfig {
            max_mining_distance: 256,
            max_ore_locations: 1000,
            scan_interval_seconds: 10,
            legit_mining: false,
            prefer_y_levels: None,
            blacklist_duration_seconds: 300,
            vein_detection_enabled: true,
            vein_max_distance_tenths: 30,
        }
    }
}

/// What one update of the mining process decided.
#[derive(Debug)]
pub enum MiningProcessResult {
    /// Head for this goal.
    GoalUpdated(Goal),
    /// No target is known.
    NoTargetsFound,
    /// The desired quantity is in the inventory; the count is given.
    QuantityReached(u32),
    Failed(String),
}

/// The most targets a goal is built from, nearest first.
pub const MAX_GOAL_TARGETS: usize = 20;

/// The veins among `positions`: each is the vein of its first position and
/// has at least two positions; no position is in two veins; and every
/// position with another one within vein distance is in a vein.
pub open spec fn are_veins(veins: Seq<Vec<BlockPos>>, positions: Seq<BlockPos>, tenths: int) -> bool {
    &&& forall|i: int|
        #![trigger veins[i]]
        0 <= i < veins.len() ==> veins[i]@.len() >= 2 && positions.contains(veins[i]@[0]) && is_vein(
            veins[i]@,
            veins[i]@[0],
            positions,
            tenths,
        )
    &&& forall|i: int, j: int, k: int|
        #![trigger veins[i]@[k], veins[j]]
        0 <= i < j < veins.len() && 0 <= k < veins[i]@.len() ==> !veins[j]@.contains(veins[i]@[k])
    &&& veins.len() == 0 ==> forall|i: int, j: int|
        0 <= i < positions.len() && 0 <= j < positions.len() && positions[i] != positions[j]
            ==> !within_tenths(#[trigger] positions[i], #[trigger] positions[j], tenths)
    &&& forall|i: int, j: int|
        0 <= i < positions.len() && 0 <= j < positions.len() && positions[i] != positions[j]
            && within_tenths(#[trigger] positions[i], #[trigger] positions[j], tenths) ==> exists|k: int|
            0 <= k < veins.len() && veins[k]@.contains(positions[i])
}

/// The preferred height of a single-block goal: the top of the preferred
/// band.
pub open spec fn preferred_y(c: MiningConfig) -> Option<i32> {
    match c.prefer_y_levels {
        Some(band) => Some(band.1),
        None => None,
    }
}

/// `w` is `s / (√d + 1)` rounded down. For whole numbers `w ≤ s / (√d + 1)`
/// exactly when `w² · d ≤ (s − w)²`, and `w + 1` must not be.
pub open spec fn is_ratio_weight(w: int, s: int, d: int) -> bool {
    &&& 0 <= w <= s
    &&& w * w * d <= (s - w) * (s - w)
    &&& (w == s || (w + 1) * (w + 1) * d > (s - w - 1) * (s - w - 1))
}

/// `w` is the weight of vein `v`, in thousandths: its size over one more
/// than the distance from its center to the player, rounded down.
pub open spec fn is_vein_weight(w: int, v: Seq<BlockPos>, player: BlockPos) -> bool {
    is_ratio_weight(w, v.len() as int * 1000, dist_sq(centroid(v), player))
}

/// `s / (√d + 1)` rounded down.
fn ratio_weight(s: u128, d: u128) -> (w: u64)
    requires
        s <= 0x4000_0000,
        d <= 0x3_0000_0000_0000_0000u128,
    ensures
        is_ratio_weight(w as int, s as int, d as int),
{
    let mut lo: u128 = 0;
    let mut hi: u128 = s + 1;
    assert(0 * 0 * d <= (s - 0) * (s - 0)) by (nonlinear_arith);
    while hi - lo > 1
        invariant
            lo < hi <= s + 1,
            s <= 0x4000_0000,
            d <= 0x3_0000_0000_0000_0000u128,
            lo * lo * d <= (s - lo) * (s - lo),
            hi == s + 1 || hi * hi * d > (s - hi) * (s - hi),
        decreases hi - lo,
    {
        let mid = lo + (hi - lo) / 2;
        assert(mid * mid <= 0x1000_0000_0000_0000u128) by (nonlinear_arith)
            requires mid <= 0x4000_0000u128;
        let sq = mid * mid;
        assert(sq * d <= 0x3000_0000_0000_0000_0000_0000_0000_0000u128) by (nonlinear_arith)
            requires sq <= 0x1000_0000_0000_0000u128, d <= 0x3_0000_0000_0000_0000u128;
        let rest = s - mid;
        assert(rest * rest <= 0x1000_0000_0000_0000u128) by (nonlinear_arith)
            requires rest <= 0x4000_0000u128;
        if sq * d <= rest * rest {
            lo = mid;
        } else {
            hi = mid;
        }
    }
    proof {
        assert(hi == lo + 1);
    }
    lo as u64
}

/// A sequence with no repeats, all of whose items are in `t`, is no longer
/// than `t`.
proof fn lemma_unique_within(v: Seq<BlockPos>, t: Seq<BlockPos>)
    requires
        v.no_duplicates(),
        forall|i: int| 0 <= i < v.len() ==> t.contains(#[trigger] v[i]),
    ensures
        v.len() <= t.len(),
{
    v.unique_seq_to_set();
    t.lemma_cardinality_of_set();
    vstd::seq_lib::seq_to_set_is_finite(t);
    assert forall|x: BlockPos| v.to_set().contains(x) implies t.to_set().contains(x) by {
        let i = choose|i: int| 0 <= i < v.len() && v[i] == x;
        assert(t.contains(v[i]));
    }
    vstd::set_lib::lemma_len_subset(v.to_set(), t.to_set());
}

/// A weighted goal for breaking the blocks of vein `v`.
pub open spec fn is_vein_goal(g: (MiningGoal, u64), v: Seq<BlockPos>, player: BlockPos) -> bool {
    &&& g.0 matches MiningGoal::OreVein { blocks, center, max_reach_tenths }
    &&& blocks@ == v
    &&& center == centroid(v)
    &&& max_reach_tenths == crate::mining_goals::STANDARD_REACH_TENTHS
    &&& is_vein_weight(g.1 as int, v, player)
}

/// `t` holds the known positions nearest to `player`, at most twenty,
/// nearest first.
pub open spec fn nearest_targets(t: Seq<BlockPos>, known: Seq<BlockPos>, player: BlockPos) -> bool {
    exists|s: Seq<BlockPos>|
        s.to_multiset() == known.to_multiset() && s.len() == known.len() && sorted_by_key(s, player, false)
            && t == s.take(if s.len() < MAX_GOAL_TARGETS { s.len() as int } else { MAX_GOAL_TARGETS as int })
}

/// No two different targets lie within vein distance of each other.
pub open spec fn no_vein_pairs(t: Seq<BlockPos>, tenths: int) -> bool {
    forall|i: int, j: int|
        0 <= i < t.len() && 0 <= j < t.len() && t[i] != t[j] ==> !within_tenths(
            #[trigger] t[i],
            #[trigger] t[j],
            tenths,
        )
}

/// Any of the targets `t`, from outside them.
pub open spec fn scattered_goal(r: Goal, t: Seq<BlockPos>) -> bool {
    match r {
        Goal::Mining(MiningGoal::MultipleBlocks { targets, allow_internal_mining }) => targets@ == t
            && !allow_internal_mining,
        _ => false,
    }
}

/// A weighted goal for each vein among the targets `t`.
pub open spec fn veins_goal(r: Goal, t: Seq<BlockPos>, player: BlockPos, tenths: int) -> bool {
    match r {
        Goal::Prioritised(pg) => pg.goals@.len() > 0 && exists|vs: Seq<Vec<BlockPos>>|
            are_veins(vs, t, tenths) && vs.len() == pg.goals@.len() && forall|i: int|
                #![trigger pg.goals@[i]]
                0 <= i < vs.len() ==> is_vein_goal(pg.goals@[i], vs[i]@, player),
        _ => false,
    }
}

/// The goal built from the targets `t`: one block alone; else a weighted
/// vein goal per vein where vein detection is on and finds veins; else any
/// of the targets, from outside them.
pub open spec fn goal_for(r: Goal, t: Seq<BlockPos>, player: BlockPos, c: MiningConfig) -> bool {
    let tenths = c.vein_max_distance_tenths as int;
    if t.len() == 1 {
        r == Goal::Mining(MiningGoal::SingleBlock { target: t[0], prefer_y_level: preferred_y(c) })
    } else if c.vein_detection_enabled {
        (veins_goal(r, t, player, tenths)) || (scattered_goal(r, t) && no_vein_pairs(t, tenths))
    } else {
        scattered_goal(r, t)
    }
}

/// A mining goal that heads for ores, single ores, or veins.
pub struct MiningProcess {
    target_blocks: Vec<BlockState>,
    desired_quantity: Option<u32>,
    current_known_locations: Vec<BlockPos>,
    world_scanner: WorldScanner,
    mining_cache: MiningCache,
    blacklisted_positions: Deadlines,
    current_goal: Option<Goal>,
    last_scan_time: Option<u64>,
    last_scan_complete: bool,
    config: MiningConfig,
}

impl MiningProcess {
    pub closed spec fn targets(&self) -> Seq<BlockState> {
        self.target_blocks@
    }

    pub closed spec fn desired(&self) -> Option<u32> {
        self.desired_quantity
    }

    pub closed spec fn known(&self) -> Seq<BlockPos> {
        self.current_known_locations@
    }

    pub closed spec fn last_scan(&self) -> Option<u64> {
        self.last_scan_time
    }

    /// The last scan stopped short of the location limit.
    pub closed spec fn scan_complete(&self) -> bool {
        self.last_scan_complete
    }

    pub closed spec fn goal(&self) -> Option<Goal> {
        self.current_goal
    }

    pub closed spec fn settings(&self) -> MiningConfig {
        self.config
    }

    /// The time until which `p` is blacklisted, if it is.
    pub closed spec fn blacklisted_until(&self, p: BlockPos) -> Option<u64> {
        self.blacklisted_positions.deadline(p)
    }

    pub closed spec fn wf(&self) -> bool {
        &&& self.blacklisted_positions.wf()
        &&& self.mining_cache.wf()
    }

    /// `p` is blacklisted at time `t`.
    pub open spec fn blacklisted_at(&self, p: BlockPos, t: u64) -> bool {
        match self.blacklisted_until(p) {
            Some(u) => t < u,
            None => false,
        }
    }

    /// A scan is due at `now`: none was made, or the interval has passed.
    pub open spec fn rescan_due(&self, now: u64) -> bool {
        match self.last_scan() {
            None => true,
            Some(t) => now >= t && now - t >= self.settings().scan_interval_seconds * 1000,
        }
    }

    pub fn new(config: MiningConfig, inventory: Option<Vec<ToolReport>>) -> (r: MiningProcess)
        ensures
            r.wf(),
            r.targets().len() == 0,
            r.desired() is None,
            r.known().len() == 0,
            r.last_scan() is None,
            r.goal() is None,
            r.settings() == config,
            forall|p: BlockPos| r.blacklisted_until(p) is None,
    {
        MiningProcess {
            target_blocks: Vec::new(),
            desired_quantity: None,
            current_known_locations: Vec::new(),
            world_scanner: WorldScanner::new(),
            mining_cache: MiningCache::new(inventory),
            blacklisted_positions: Deadlines::new(),
            current_goal: None,
            last_scan_time: None,
            last_scan_complete: false,
            config,
        }
    }

    /// Starts mining `blocks`, up to `quantity` if given, forgetting what was
    /// known and blacklisted.
    pub fn start_mining(&mut self, blocks: Vec<BlockState>, quantity: Option<u32>)
        requires
            old(self).wf(),
        ensures
            final(self).wf(),
            final(self).targets() == blocks@,
            final(self).desired() == quantity,
            final(self).known().len() == 0,
            final(self).last_scan() is None,
            final(self).settings() == old(self).settings(),
            forall|p: BlockPos| final(self).blacklisted_until(p) is None,
    {
        self.target_blocks = blocks;
        self.desired_quantity = quantity;
        self.current_known_locations = Vec::new();
        self.blacklisted_positions.clear();
        self.last_scan_time = None;
    }

    /// How many target locations are known.
    pub fn known_count(&self) -> (r: usize)
        ensures
            r == self.known().len(),
    {
        self.current_known_locations.len()
    }

    /// How many target items are wanted, if a quantity was set.
    pub fn desired_quantity(&self) -> (r: Option<u32>)
        ensures
            r == self.desired(),
    {
        self.desired_quantity
    }

    /// Whether mining is under way.
    pub fn is_active(&self) -> (r: bool)
        ensures
            r == (self.targets().len() > 0),
    {
        self.target_blocks.len() > 0
    }

    /// The goal being followed, if any.
    pub fn current_goal(&self) -> (r: Option<&Goal>)
        ensures
            r matches Some(g) ==> self.goal() == Some(*g),
            r is None <==> self.goal() is None,
    {
        match &self.current_goal {
            Some(g) => Some(g),
            None => None,
        }
    }

    /// Stops mining: no targets, no quantity, nothing known, no goal.
    pub fn stop(&mut self)
        requires
            old(self).wf(),
        ensures
            final(self).wf(),
            final(self).targets().len() == 0,
            final(self).desired() is None,
            final(self).known().len() == 0,
            final(self).goal() is None,
            final(self).last_scan() == old(self).last_scan(),
            final(self).settings() == old(self).settings(),
            forall|p: BlockPos| final(self).blacklisted_until(p) == old(self).blacklisted_until(p),
    {
        self.target_blocks = Vec::new();
        self.desired_quantity = None;
        self.current_known_locations = Vec::new();
        self.current_goal = None;
    }

    /// Blacklists `pos` for `duration_seconds` from `now` (milliseconds).
    pub fn blacklist_position(&mut self, pos: BlockPos, duration_seconds: u64, now: u64)
        requires
            old(self).wf(),
        ensures
            final(self).wf(),
            final(self).blacklisted_until(pos) == Some(after_secs(now, duration_seconds)),
            forall|p: BlockPos| p != pos ==> final(self).blacklisted_until(p) == old(self).blacklisted_until(p),
            final(self).targets() == old(self).targets(),
            final(self).desired() == old(self).desired(),
            final(self).known() == old(self).known(),
            final(self).last_scan() == old(self).last_scan(),
            final(self).settings() == old(self).settings(),
    {
        let until = deadline_after(now, duration_seconds);
        self.blacklisted_positions.insert(pos, until);
        self.mining_cache.mark_block_inaccessible(pos, duration_seconds, now);
    }

    fn is_blacklisted(&self, pos: BlockPos, now: u64) -> (r: bool)
        requires
            self.wf(),
        ensures
            r == self.blacklisted_at(pos, now),
    {
        self.blacklisted_positions.is_held(pos, now)
    }

    fn cleanup_blacklist(&mut self, now: u64)
        requires
            old(self).wf(),
        ensures
            final(self).wf(),
            forall|p: BlockPos| #[trigger] final(self).blacklisted_until(p) == unexpired(
                old(self).blacklisted_until(p),
                now,
            ),
            final(self).targets() == old(self).targets(),
            final(self).desired() == old(self).desired(),
            final(self).known() == old(self).known(),
            final(self).last_scan() == old(self).last_scan(),
            final(self).settings() == old(self).settings(),
    {
        self.blacklisted_positions.retain_unexpired(now);
        self.mining_cache.cleanup_avoid_list(now);
    }

    fn should_rescan(&self, now: u64) -> (r: bool)
        ensures
            r == self.rescan_due(now),
    {
        match self.last_scan_time {
            None => true,
            Some(t) => {
                let secs = self.config.scan_interval_seconds;
                if secs > u64::MAX / 1000 {
                    false
                } else {
                    now >= t && now - t >= secs * 1000
                }
            },
        }
    }
}

fn in_any_vein(veins: &Vec<Vec<BlockPos>>, p: BlockPos) -> (r: bool)
    ensures
        r == exists|i: int| 0 <= i < veins@.len() && veins@[i]@.contains(p),
{
    let mut i: usize = 0;
    while i < veins.len()
        invariant
            i <= veins@.len(),
            forall|j: int| 0 <= j < i ==> !veins@[j]@.contains(p),
        decreases veins@.len() - i,
    {
        if contains_pos(&veins[i], p) {
            return true;
        }
        i = i + 1;
    }
    false
}

impl MiningProcess {
    /// Groups `positions` into veins of at least two positions each.
    pub fn detect_ore_veins(&self, positions: &Vec<BlockPos>) -> (r: Vec<Vec<BlockPos>>)
        ensures
            are_veins(r@, positions@, self.settings().vein_max_distance_tenths as int),
    {
        let tenths = self.config.vein_max_distance_tenths;
        let mut veins: Vec<Vec<BlockPos>> = Vec::new();
        let mut i: usize = 0;
        while i < positions.len()
            invariant
                i <= positions@.len(),
                tenths == self.settings().vein_max_distance_tenths,
                forall|k: int|
                    #![trigger veins@[k]]
                    0 <= k < veins@.len() ==> veins@[k]@.len() >= 2 && positions@.contains(veins@[k]@[0])
                        && is_vein(veins@[k]@, veins@[k]@[0], positions@, tenths as int),
                veins@.len() == 0 ==> forall|a: int, b: int|
                    0 <= a < i && 0 <= b < positions@.len() && positions@[a] != positions@[b]
                        ==> !within_tenths(#[trigger] positions@[a], #[trigger] positions@[b], tenths as int),
                forall|a: int, b: int, k: int|
                    #![trigger veins@[a]@[k], veins@[b]]
                    0 <= a < b < veins@.len() && 0 <= k < veins@[a]@.len() ==> !veins@[b]@.contains(veins@[a]@[k]),
                forall|a: int, b: int|
                    0 <= a < i && 0 <= b < positions@.len() && positions@[a] != positions@[b] && within_tenths(
                        #[trigger] positions@[a],
                        #[trigger] positions@[b],
                        tenths as int,
                    ) ==> exists|k: int| 0 <= k < veins@.len() && veins@[k]@.contains(positions@[a]),
            decreases positions@.len() - i,
        {
            let p = positions[i];
            let ghost old_veins = veins@;
            let in_any = in_any_vein(&veins, p);
            let ghost mut vein_of_p: Seq<BlockPos> = Seq::empty();
            if !in_any {
                let v = connected_vein(p, positions, tenths);
                proof {
                    vein_of_p = v@;
                }
                if v.len() >= 2 {
                    let ghost before = veins@;
                    veins.push(v);
                    proof {
                        assert(positions@.contains(p)) by {
                            assert(positions@[i as int] == p);
                        }
                        assert forall|k: int|
                            #![trigger veins@[k]]
                            0 <= k < veins@.len() implies veins@[k]@.len() >= 2 && positions@.contains(
                                veins@[k]@[0],
                            ) && is_vein(veins@[k]@, veins@[k]@[0], positions@, tenths as int) by {
                            if k < before.len() {
                                assert(veins@[k] == before[k]);
                            }
                        }
                        assert forall|a: int, b: int, k: int|
                            #![trigger veins@[a]@[k], veins@[b]]
                            0 <= a < b < veins@.len() && 0 <= k < veins@[a]@.len() implies !veins@[b]@.contains(
                                veins@[a]@[k],
                            ) by {
                            if b < before.len() {
                                assert(veins@[a] == before[a]);
                                assert(veins@[b] == before[b]);
                            } else {
                                assert(veins@[a] == before[a]);
                                assert(veins@[b] == v);
                                if v@.contains(before[a]@[k]) {
                                    let q = choose|q: int| 0 <= q < v@.len() && v@[q] == before[a]@[k];
                                    assert(before[a]@.contains(v@[q]));
                                    lemma_vein_reaches_seed(v@, before[a]@, positions@, tenths as int, q);
                                    assert(before[a]@.contains(p));
                                }
                            }
                        }
                    }
                } else if veins.len() == 0 {
                    proof {
                        assert forall|a: int, b: int|
                            0 <= a < i + 1 && 0 <= b < positions@.len() && positions@[a] != positions@[b]
                                implies !within_tenths(#[trigger] positions@[a], #[trigger] positions@[b], tenths as int) by {
                            if a == i && within_tenths(positions@[a], positions@[b], tenths as int) {
                                assert(within_tenths(v@[0], positions@[b], tenths as int));
                                assert(v@.contains(positions@[b]));
                                let q = choose|q: int| 0 <= q < v@.len() && v@[q] == positions@[b];
                                assert(q != 0);
                            }
                        }
                    }
                }
            }
            proof {
                assert forall|a: int, b: int|
                    0 <= a < i + 1 && 0 <= b < positions@.len() && positions@[a] != positions@[b] && within_tenths(
                        #[trigger] positions@[a],
                        #[trigger] positions@[b],
                        tenths as int,
                    ) implies exists|k: int| 0 <= k < veins@.len() && veins@[k]@.contains(positions@[a]) by {
                    if a < i {
                        let k = choose|k: int| 0 <= k < old_veins.len() && old_veins[k]@.contains(positions@[a]);
                        assert(veins@[k] == old_veins[k]);
                    } else {
                        if !in_any {
                            assert(vein_of_p.contains(positions@[b]));
                            let q = choose|q: int| 0 <= q < vein_of_p.len() && vein_of_p[q] == positions@[b];
                            assert(q != 0);
                            assert(veins@[veins@.len() - 1]@ == vein_of_p);
                            assert(vein_of_p[0] == positions@[a]);
                            assert(veins@[veins@.len() - 1]@.contains(positions@[a]));
                        }
                    }
                }
            }
            i = i + 1;
        }
        veins
    }

    /// The goal for the known positions, or none where none is known.
    pub fn update_mining_goal(&self, player_pos: BlockPos) -> (r: Option<Goal>)
        ensures
            r is None <==> self.known().len() == 0,
            r matches Some(g) ==> exists|t: Seq<BlockPos>|
                nearest_targets(t, self.known(), player_pos) && goal_for(g, t, player_pos, self.settings()),
    {
        if self.current_known_locations.len() == 0 {
            return None;
        }
        let sorted = sort_by_distance(&self.current_known_locations, player_pos, false);
        let n = if sorted.len() < MAX_GOAL_TARGETS { sorted.len() } else { MAX_GOAL_TARGETS };
        let mut targets: Vec<BlockPos> = Vec::new();
        let mut i: usize = 0;
        while i < n
            invariant
                i <= n,
                n <= sorted@.len(),
                targets@ == sorted@.take(i as int),
            decreases n - i,
        {
            targets.push(sorted[i]);
            proof {
                assert(sorted@.take(i + 1) == sorted@.take(i as int).push(sorted@[i as int]));
            }
            i = i + 1;
        }
        let ghost t = targets@;
        proof {
            assert(nearest_targets(t, self.known(), player_pos));
        }
        if targets.len() > 1 && self.config.vein_detection_enabled {
            let veins = self.detect_ore_veins(&targets);
            if veins.len() > 0 {
                let mut goals: Vec<(MiningGoal, u64)> = Vec::new();
                let mut k: usize = 0;
                while k < veins.len()
                    invariant
                        k <= veins@.len(),
                        goals@.len() == k,
                        forall|j: int|
                            #![trigger goals@[j]]
                            0 <= j < k ==> is_vein_goal(goals@[j], veins@[j]@, player_pos),
                        are_veins(veins@, targets@, self.settings().vein_max_distance_tenths as int),
                        targets@.len() <= MAX_GOAL_TARGETS,
                    decreases veins@.len() - k,
                {
                    let v = copy_positions(&veins[k]);
                    proof {
                        let vk = veins@[k as int]@;
                        assert(is_vein(vk, vk[0], targets@, self.settings().vein_max_distance_tenths as int));
                        assert forall|i: int| 0 <= i < vk.len() implies targets@.contains(#[trigger] vk[i]) by {
                            if i == 0 {
                                assert(targets@.contains(veins@[k as int]@[0]));
                            }
                        }
                        lemma_unique_within(vk, targets@);
                    }
                    let center = vein_center(&v);
                    let d = center.distance_squared_to(player_pos);
                    let size = v.len() as u128;
                    let weight = ratio_weight(size * 1000, d);
                    goals.push((
                        MiningGoal::OreVein {
                            blocks: v,
                            center,
                            max_reach_tenths: crate::mining_goals::STANDARD_REACH_TENTHS,
                        },
                        weight,
                    ));
                    k = k + 1;
                }
                return Some(Goal::Prioritised(PriorizedMiningGoal { goals }));
            }
        }
        if targets.len() == 1 {
            let prefer_y = match self.config.prefer_y_levels {
                Some(band) => Some(band.1),
                None => None,
            };
            Some(Goal::Mining(MiningGoal::SingleBlock { target: targets[0], prefer_y_level: prefer_y }))
        } else {
            Some(Goal::Mining(MiningGoal::for_scattered_blocks(targets, false)))
        }
    }
}

fn copy_states(v: &Vec<BlockState>) -> (r: Vec<BlockState>)
    ensures
        r@ == v@,
{
    let mut out: Vec<BlockState> = Vec::new();
    let mut i: usize = 0;
    while i < v.len()
        invariant
            i <= v@.len(),
            out@ == v@.take(i as int),
        decreases v@.len() - i,
    {
        out.push(v[i]);
        proof {
            assert(v@.take(i + 1) == v@.take(i as int).push(v@[i as int]));
        }
        i = i + 1;
    }
    proof {
        assert(v@.take(v@.len() as int) == v@);
    }
    out
}


impl MiningProcess {
    /// Scans the world for the target blocks and keeps those not
    /// blacklisted at `now` as the known locations.
    fn scan_for_targets(&mut self, player_pos: BlockPos, world: &Instance, now: u64)
        requires
            old(self).wf(),
        ensures
            final(self).wf(),
            forall|k: int|
                0 <= k < final(self).known().len() ==> is_hit(*world, old(self).targets(), #[trigger] final(self).known()[k])
                    && !old(self).blacklisted_at(final(self).known()[k], now),
            final(self).targets() == old(self).targets(),
            final(self).desired() == old(self).desired(),
            final(self).last_scan() == old(self).last_scan(),
            final(self).settings() == old(self).settings(),
            forall|p: BlockPos| final(self).blacklisted_until(p) == old(self).blacklisted_until(p),
            scan_found_all(*old(self), *final(self), *world, player_pos, now),
    {
        let request = ScanRequest {
            block_states: copy_states(&self.target_blocks),
            center_pos: player_pos,
            max_radius: self.config.max_mining_distance,
            max_results: self.config.max_ore_locations,
            prefer_y_levels: self.config.prefer_y_levels,
        };
        let result = self.world_scanner.scan_for_blocks(world, request);
        let mut kept: Vec<BlockPos> = Vec::new();
        let mut i: usize = 0;
        while i < result.positions.len()
            invariant
                i <= result.positions@.len(),
                self.wf(),
                self.target_blocks@ == old(self).targets(),
                forall|p: BlockPos| self.blacklisted_until(p) == old(self).blacklisted_until(p),
                forall|k: int|
                    0 <= k < result.positions@.len() ==> is_hit(
                        *world,
                        old(self).targets(),
                        #[trigger] result.positions@[k],
                    ),
                forall|k: int|
                    0 <= k < kept@.len() ==> is_hit(*world, old(self).targets(), #[trigger] kept@[k])
                        && !old(self).blacklisted_at(kept@[k], now),
                forall|k: int|
                    0 <= k < i && !old(self).blacklisted_at(#[trigger] result.positions@[k], now) ==> kept@.contains(
                        result.positions@[k],
                    ),
            decreases result.positions@.len() - i,
        {
            let ghost k0 = kept@;
            let p = result.positions[i];
            if !self.is_blacklisted(p, now) {
                kept.push(p);
            }
            proof {
                assert forall|k: int|
                    0 <= k < i + 1 && !old(self).blacklisted_at(#[trigger] result.positions@[k], now) implies kept@.contains(
                        result.positions@[k],
                    ) by {
                    if k < i {
                        let q = choose|q: int| 0 <= q < k0.len() && k0[q] == result.positions@[k];
                        assert(kept@[q] == k0[q]);
                    } else {
                        assert(kept@[kept@.len() - 1] == p);
                    }
                }
            }
            i = i + 1;
        }
        proof {
            let player = player_pos;
            let cfg = self.config;
            if result.is_complete && ring_fits(chunk_of(player), (cfg.max_mining_distance + 15) / 16) {
                assert forall|ci: int, sy: int, j: int|
                    #![trigger section_block_pos(world.chunks@[ci].pos, sy, j, world.min_y as int)]
                    covered_block(*world, old(self).targets(), player, cfg.max_mining_distance, ci, sy, j)
                        && !old(self).blacklisted_at(section_block_pos(world.chunks@[ci].pos, sy, j, world.min_y as int), now)
                        implies kept@.contains(section_block_pos(world.chunks@[ci].pos, sy, j, world.min_y as int)) by {
                    let q = section_block_pos(world.chunks@[ci].pos, sy, j, world.min_y as int);
                    assert(result.positions@.contains(q));
                    let k = choose|k: int| 0 <= k < result.positions@.len() && result.positions@[k] == q;
                    assert(!old(self).blacklisted_at(result.positions@[k], now));
                }
            }
        }
        if self.target_blocks.len() > 0 {
            let first = self.target_blocks[0];
            let cached = copy_positions(&kept);
            self.world_scanner.cache_ore_locations(first, cached, now);
        }
        self.current_known_locations = kept;
        self.last_scan_complete = result.is_complete;
    }

    /// One tick of mining at time `now` (milliseconds), with `current_count`
    /// target items in the inventory: report the quantity once it is reached;
    /// else drop expired blacklist entries, scan when a scan is due, and
    /// build the goal from the known locations.
    pub fn update(&mut self, player_pos: BlockPos, world: &Instance, current_count: u32, now: u64) -> (r:
        MiningProcessResult)
        requires
            old(self).wf(),
        ensures
            final(self).wf(),
            final(self).targets() == old(self).targets(),
            final(self).desired() == old(self).desired(),
            final(self).settings() == old(self).settings(),
            old(self).desired() matches Some(d) && current_count >= d ==> {
                &&& r == MiningProcessResult::QuantityReached(current_count)
                &&& *final(self) == *old(self)
                &&& final(self).known() == old(self).known()
                &&& final(self).last_scan() == old(self).last_scan()
                &&& forall|p: BlockPos| final(self).blacklisted_until(p) == old(self).blacklisted_until(p)
            },
            !(old(self).desired() matches Some(d) && current_count >= d) ==> {
                &&& forall|p: BlockPos| #[trigger] final(self).blacklisted_until(p) == unexpired(
                    old(self).blacklisted_until(p),
                    now,
                )
                &&& old(self).rescan_due(now) ==> final(self).last_scan() == Some(now) && scan_excludes_blacklisted(
                    *old(self),
                    *final(self),
                    now,
                ) && scan_found_all(*old(self), *final(self), *world, player_pos, now) && forall|k: int|
                    0 <= k < final(self).known().len() ==> is_hit(
                        *world,
                        old(self).targets(),
                        #[trigger] final(self).known()[k],
                    )
                &&& !old(self).rescan_due(now) ==> final(self).known() == old(self).known()
                    && final(self).last_scan() == old(self).last_scan()
                &&& (r is NoTargetsFound <==> final(self).known().len() == 0)
                &&& (r is NoTargetsFound || r is GoalUpdated)
                &&& r matches MiningProcessResult::GoalUpdated(g) ==> exists|t: Seq<BlockPos>|
                    nearest_targets(t, final(self).known(), player_pos) && goal_for(
                        g,
                        t,
                        player_pos,
                        final(self).settings(),
                    )
            },
    {
        if let Some(desired) = self.desired_quantity {
            if current_count >= desired {
                return MiningProcessResult::QuantityReached(current_count);
            }
        }
        let rescan = self.should_rescan(now);
        self.cleanup_blacklist(now);
        if rescan {
            let ghost mid = *self;
            self.scan_for_targets(player_pos, world, now);
            let ghost scanned = *self;
            self.last_scan_time = Some(now);
            proof {
                assert(self.known() == scanned.known());
                assert(self.scan_complete() == scanned.scan_complete());
                assert(mid.targets() == old(self).targets());
                assert(mid.settings() == old(self).settings());
                if self.scan_complete() && ring_fits(chunk_of(player_pos), (old(self).settings().max_mining_distance + 15) / 16) {
                    assert forall|ci: int, sy: int, j: int|
                        #![trigger section_block_pos(world.chunks@[ci].pos, sy, j, world.min_y as int)]
                        covered_block(
                            *world,
                            old(self).targets(),
                            player_pos,
                            old(self).settings().max_mining_distance,
                            ci,
                            sy,
                            j,
                        ) && !old(self).blacklisted_at(section_block_pos(world.chunks@[ci].pos, sy, j, world.min_y as int), now)
                            implies self.known().contains(section_block_pos(world.chunks@[ci].pos, sy, j, world.min_y as int)) by {
                        let q = section_block_pos(world.chunks@[ci].pos, sy, j, world.min_y as int);
                        assert(mid.blacklisted_until(q) == unexpired(old(self).blacklisted_until(q), now));
                        assert(!mid.blacklisted_at(q, now));
                    }
                }
                assert(self.blacklisted_positions == scanned.blacklisted_positions);
                assert forall|p: BlockPos| #[trigger] self.blacklisted_until(p) == unexpired(
                    old(self).blacklisted_until(p),
                    now,
                ) by {
                    assert(self.blacklisted_until(p) == scanned.blacklisted_until(p));
                    assert(scanned.blacklisted_until(p) == mid.blacklisted_until(p));
                    assert(mid.blacklisted_until(p) == unexpired(old(self).blacklisted_until(p), now));
                }
                assert(self.targets() == scanned.targets());
                assert(self.settings() == scanned.settings());
                assert(self.desired() == scanned.desired());
                assert forall|k: int| 0 <= k < self.known().len() implies is_hit(
                    *world,
                    old(self).targets(),
                    #[trigger] self.known()[k],
                ) && !old(self).blacklisted_at(self.known()[k], now) by {
                    let q = scanned.known()[k];
                    assert(is_hit(*world, mid.targets(), q));
                    assert(!mid.blacklisted_at(q, now));
                    assert(mid.blacklisted_until(q) == unexpired(old(self).blacklisted_until(q), now));
                }
            }
        }
        let r = match self.update_mining_goal(player_pos) {
            Some(goal) => MiningProcessResult::GoalUpdated(goal),
            None => MiningProcessResult::NoTargetsFound,
        };
        assert(forall|p: BlockPos| #[trigger] self.blacklisted_until(p) == unexpired(old(self).blacklisted_until(p), now));
        assert(old(self).rescan_due(now) ==> self.last_scan() == Some(now));
        assert(!old(self).rescan_due(now) ==> self.known() == old(self).known());
        assert(!old(self).rescan_due(now) ==> self.last_scan() == old(self).last_scan());
        assert(r is NoTargetsFound <==> self.known().len() == 0);
        r
    }
}

/// Every target block that a complete scan around `player` covers, and that
/// was not blacklisted at `now`, is a known location of `after`.
pub open spec fn scan_found_all(before: MiningProcess, after: MiningProcess, world: Instance, player: BlockPos, now: u64) -> bool {
    after.scan_complete() && ring_fits(chunk_of(player), (before.settings().max_mining_distance + 15) / 16) ==> forall|
        ci: int,
        sy: int,
        i: int,
    |
        #![trigger section_block_pos(world.chunks@[ci].pos, sy, i, world.min_y as int)]
        covered_block(
            world,
            before.targets(),
            player,
            before.settings().max_mining_distance,
            ci,
            sy,
            i,
        ) && !before.blacklisted_at(section_block_pos(world.chunks@[ci].pos, sy, i, world.min_y as int), now)
            ==> after.known().contains(section_block_pos(world.chunks@[ci].pos, sy, i, world.min_y as int))
}

/// After a scan at `now`, no known location was blacklisted then.
pub open spec fn scan_excludes_blacklisted(before: MiningProcess, after: MiningProcess, now: u64) -> bool {
    forall|k: int| 0 <= k < after.known().len() ==> !before.blacklisted_at(#[trigger] after.known()[k], now)
}

/// A position blacklisted for `secs` seconds at `t0` is not among the known
/// locations after a scan at any time before the deadline.
pub proof fn lemma_blacklisted_not_known(before: MiningProcess, after: MiningProcess, p: BlockPos, t0: u64, secs: u64, now: u64)
    requires
        before.blacklisted_until(p) == Some(after_secs(t0, secs)),
        t0 <= now < after_secs(t0, secs),
        scan_excludes_blacklisted(before, after, now),
    ensures
        !after.known().contains(p),
{
    if after.known().contains(p) {
        let k = choose|k: int| 0 <= k < after.known().len() && after.known()[k] == p;
        assert(!before.blacklisted_at(after.known()[k], now));
    }
}

/// A position blacklisted for `secs` seconds at `t0` counts as blacklisted
/// at every time from `t0` until the deadline, and not from the deadline on;
/// a scan keeps no blacklisted position among the known locations.
pub proof fn lemma_blacklist_window(m: MiningProcess, p: BlockPos, t0: u64, secs: u64, t: u64)
    requires
        m.blacklisted_until(p) == Some(after_secs(t0, secs)),
        t0 <= t,
    ensures
        t < after_secs(t0, secs) ==> m.blacklisted_at(p, t),
        t >= after_secs(t0, secs) ==> !m.blacklisted_at(p, t),
        (t0 as int) + (secs as int) * 1000 <= u64::MAX ==> (m.blacklisted_at(p, t) <==> t < t0 + secs
            * 1000),
{
}

/// Sweeping the blacklist at `now` keeps every position that is still
/// blacklisted then, with its deadline.
pub proof fn lemma_sweep_keeps_blacklisted(before: Option<u64>, now: u64, later: u64)
    requires
        now <= later,
        before matches Some(u) && later < u,
    ensures
        unexpired(before, now) == before,
{
}

} // verus!
