//! Finding blocks of given states in loaded chunks, nearest chunks first,
//! and remembering where ores were seen.
use vstd::prelude::*;
use crate::pos::{BlockPos, ChunkPos, chunk_of, abs};
use crate::block::BlockState;
use crate::vein::contains_pos;
use crate::sort::{sort_by_distance, sorted_by_key};
use vstd::seq_lib::to_multiset_contains;

verus! {

/// How a chunk section stores its block states.
#[derive(Clone, Debug)]
pub enum Palette {
    /// Every block of the section has this state.
    SingleValue(BlockState),
    /// A short list of the states that occur.
    Linear(Vec<BlockState>),
    /// A longer list of the states that occur.
    Hashmap(Vec<BlockState>),
    /// Any state may occur.
    Global,
}

/// A 16x16x16 cube of blocks: its palette, and its states indexed by
/// `(y * 16 + z) * 16 + x`.
#[derive(Clone, Debug)]
pub struct Section {
    pub palette: Palette,
    pub states: Vec<BlockState>,
}

/// A column of sections, the lowest first.
#[derive(Clone, Debug)]
pub struct Chunk {
    pub pos: ChunkPos,
    pub sections: Vec<Section>,
}

/// The loaded chunks of a world whose lowest block is at `min_y`.
#[derive(Clone, Debug)]
pub struct Instance {
    pub min_y: i32,
    pub height: u32,
    pub chunks: Vec<Chunk>,
}

/// What to look for, around where, and how many at most.
#[derive(Clone, Debug)]
pub struct ScanRequest {
    pub block_states: Vec<BlockState>,
    pub center_pos: BlockPos,
    pub max_radius: u32,
    pub max_results: usize,
    /// Heights whose sections are scanned first, lowest and highest.
    pub prefer_y_levels: Option<(i32, i32)>,
}

#[derive(Clone, Debug)]
pub struct ScanResult {
    pub positions: Vec<BlockPos>,
    pub is_complete: bool,
}

/// Where an ore was seen, and whether it proved reachable.
#[derive(Clone, Copy, Debug, PartialEq, Eq, Hash, Structural)]
pub struct CachedOreLocation {
    pub pos: BlockPos,
    pub chunk_pos: ChunkPos,
    /// Milliseconds on the caller's clock.
    pub last_seen: u64,
    pub is_accessible: Option<bool>,
}

/// Scans the world for blocks and remembers where ores were seen.
pub struct WorldScanner {
    ore_cache: Vec<(BlockState, Vec<CachedOreLocation>)>,
}

/// The section's palette lists every state the section holds.
pub open spec fn section_wf(sec: Section) -> bool {
    match sec.palette {
        Palette::SingleValue(v) => forall|i: int| 0 <= i < sec.states@.len() ==> sec.states@[i] == v,
        Palette::Linear(v) => forall|i: int| 0 <= i < sec.states@.len() ==> v@.contains(sec.states@[i]),
        Palette::Hashmap(v) => forall|i: int| 0 <= i < sec.states@.len() ==> v@.contains(sec.states@[i]),
        Palette::Global => true,
    }
}

/// A section whose palette lists its states and that holds a target has a
/// palette that admits it: the prefilter never skips a matching section.
pub proof fn lemma_wf_palette(sec: Section, targets: Seq<BlockState>, i: int)
    requires
        section_wf(sec),
        0 <= i < sec.states@.len(),
        targets.contains(sec.states@[i]),
    ensures
        palette_may_hold(sec.palette, targets),
{
    match sec.palette {
        Palette::Linear(v) => {
            let j = choose|j: int| 0 <= j < v@.len() && v@[j] == sec.states@[i];
            assert(targets.contains(v@[j]));
        },
        Palette::Hashmap(v) => {
            let j = choose|j: int| 0 <= j < v@.len() && v@[j] == sec.states@[i];
            assert(targets.contains(v@[j]));
        },
        _ => {},
    }
}

/// Whether a section with this palette can hold one of `targets`.
pub open spec fn palette_may_hold(p: Palette, targets: Seq<BlockState>) -> bool {
    match p {
        Palette::SingleValue(s) => targets.contains(s),
        Palette::Linear(v) => exists|i: int| 0 <= i < v@.len() && targets.contains(#[trigger] v@[i]),
        Palette::Hashmap(v) => exists|i: int| 0 <= i < v@.len() && targets.contains(#[trigger] v@[i]),
        Palette::Global => true,
    }
}

pub fn contains_state(v: &Vec<BlockState>, s: BlockState) -> (r: bool)
    ensures
        r == v@.contains(s),
{
    let mut i: usize = 0;
    while i < v.len()
        invariant
            i <= v@.len(),
            forall|j: int| 0 <= j < i ==> v@[j] != s,
        decreases v@.len() - i,
    {
        if v[i] == s {
            return true;
        }
        i = i + 1;
    }
    false
}

fn any_in(v: &Vec<BlockState>, targets: &Vec<BlockState>) -> (r: bool)
    ensures
        r == exists|i: int| 0 <= i < v@.len() && targets@.contains(#[trigger] v@[i]),
{
    let mut i: usize = 0;
    while i < v.len()
        invariant
            i <= v@.len(),
            forall|j: int| 0 <= j < i ==> !targets@.contains(#[trigger] v@[j]),
        decreases v@.len() - i,
    {
        if contains_state(targets, v[i]) {
            return true;
        }
        i = i + 1;
    }
    false
}

/// Whether a section with this palette can hold one of `targets`.
pub fn palette_contains_target(palette: &Palette, targets: &Vec<BlockState>) -> (r: bool)
    ensures
        r == palette_may_hold(*palette, targets@),
{
    match palette {
        Palette::SingleValue(s) => contains_state(targets, *s),
        Palette::Linear(v) => any_in(v, targets),
        Palette::Hashmap(v) => any_in(v, targets),
        Palette::Global => true,
    }
}

/// The world position of index `i` of section `sy` of chunk `c`.
pub open spec fn section_block_pos(c: ChunkPos, sy: int, i: int, min_y: int) -> BlockPos {
    BlockPos {
        x: (c.x * 16 + i % 16) as i32,
        y: (min_y + sy * 16 + i / 256) as i32,
        z: (c.z * 16 + (i / 16) % 16) as i32,
    }
}

/// Every block of the section lies within `i32`.
pub open spec fn section_fits(c: ChunkPos, sy: int, min_y: int) -> bool {
    &&& i32::MIN <= c.x * 16
    &&& c.x * 16 + 15 <= i32::MAX
    &&& i32::MIN <= c.z * 16
    &&& c.z * 16 + 15 <= i32::MAX
    &&& i32::MIN <= min_y + sy * 16
    &&& min_y + sy * 16 + 15 <= i32::MAX
}

/// `p` is the position of an index of the section that holds one of
/// `targets`.
pub open spec fn is_section_hit(c: ChunkPos, sec: Section, sy: int, targets: Seq<BlockState>, min_y: int, p: BlockPos) -> bool {
    exists|j: int|
        0 <= j < 4096 && j < sec.states@.len() && targets.contains(sec.states@[j]) && p
            == #[trigger] section_block_pos(c, sy, j, min_y)
}

proof fn lemma_push_contains(v: Seq<BlockPos>, x: BlockPos, y: BlockPos)
    requires
        v.contains(y),
    ensures
        v.push(x).contains(y),
{
    let k = choose|k: int| 0 <= k < v.len() && v[k] == y;
    assert(v.push(x)[k] == y);
}

/// Appends to `results` the positions of the section that hold one of the
/// requested states and are not there yet, in index order, stopping once
/// the results reach the request's limit. A section whose palette admits no
/// target is skipped.
pub fn scan_chunk_section(
    results: &mut Vec<BlockPos>,
    chunk_pos: ChunkPos,
    section: &Section,
    section_y: i32,
    request: &ScanRequest,
    world_min_y: i32,
)
    requires
        section_fits(chunk_pos, section_y as int, world_min_y as int),
        old(results)@.len() < request.max_results,
        old(results)@.no_duplicates(),
    ensures
        grows(old(results)@, final(results)@),
        final(results)@.no_duplicates(),
        final(results)@.len() <= request.max_results,
        forall|k: int|
            old(results)@.len() <= k < final(results)@.len() ==> is_section_hit(
                chunk_pos,
                *section,
                section_y as int,
                request.block_states@,
                world_min_y as int,
                #[trigger] final(results)@[k],
            ),
        !palette_may_hold(section.palette, request.block_states@) ==> final(results)@ == old(results)@,
        palette_may_hold(section.palette, request.block_states@) && final(results)@.len() < request.max_results
            ==> forall|j: int|
            0 <= j < 4096 && j < section.states@.len() && request.block_states@.contains(section.states@[j])
                ==> final(results)@.contains(#[trigger] section_block_pos(chunk_pos, section_y as int, j, world_min_y as int)),
{
    let ghost found = results@;
    proof {
        assert(results@.take(results@.len() as int) =~= results@);
    }
    if !palette_contains_target(&section.palette, &request.block_states) {
        return;
    }
    let base_x: i32 = chunk_pos.x * 16;
    let base_z: i32 = chunk_pos.z * 16;
    let base_y: i32 = (world_min_y as i64 + section_y as i64 * 16) as i32;
    let mut i: usize = 0;
    let mut done = false;
    while i < 4096 && !done
        invariant
            i <= 4096,
            section_fits(chunk_pos, section_y as int, world_min_y as int),
            base_x == chunk_pos.x * 16,
            base_z == chunk_pos.z * 16,
            base_y == world_min_y + section_y * 16,
            grows(found, results@),
            results@.no_duplicates(),
            results@.len() <= request.max_results,
            !done ==> results@.len() < request.max_results,
            done ==> results@.len() >= request.max_results,
            forall|k: int|
                found.len() <= k < results@.len() ==> is_section_hit(
                    chunk_pos,
                    *section,
                    section_y as int,
                    request.block_states@,
                    world_min_y as int,
                    #[trigger] results@[k],
                ),
            forall|j: int|
                0 <= j < i && j < section.states@.len() && request.block_states@.contains(section.states@[j])
                    ==> results@.contains(#[trigger] section_block_pos(chunk_pos, section_y as int, j, world_min_y as int)),
        decreases 4096 - i + if done { 0int } else { 1int },
    {
        let ghost before = results@;
        if i < section.states.len() && contains_state(&request.block_states, section.states[i]) {
            let x = (i % 16) as i32;
            let z = ((i / 16) % 16) as i32;
            let y = (i / 256) as i32;
            let p = BlockPos { x: base_x + x, y: base_y + y, z: base_z + z };
            assert(p == section_block_pos(chunk_pos, section_y as int, i as int, world_min_y as int));
            if !contains_pos(results, p) {
                results.push(p);
                proof {
                    assert(results@.take(found.len() as int) == before.take(found.len() as int));
                    assert forall|a: int, b: int| 0 <= a < b < results@.len() implies results@[a] != results@[b] by {
                        if b == results@.len() - 1 {
                            assert(results@[a] == before[a]);
                        } else {
                            assert(before[a] != before[b]);
                        }
                    }
                    assert forall|k: int| found.len() <= k < results@.len() implies is_section_hit(
                        chunk_pos,
                        *section,
                        section_y as int,
                        request.block_states@,
                        world_min_y as int,
                        #[trigger] results@[k],
                    ) by {
                        if k < before.len() {
                            assert(results@[k] == before[k]);
                        } else {
                            assert(results@[k] == section_block_pos(chunk_pos, section_y as int, i as int, world_min_y as int));
                        }
                    }
                    assert forall|j: int|
                        0 <= j < i + 1 && j < section.states@.len() && request.block_states@.contains(section.states@[j])
                            implies results@.contains(#[trigger] section_block_pos(chunk_pos, section_y as int, j, world_min_y as int)) by {
                        if j < i {
                            lemma_push_contains(before, p, section_block_pos(chunk_pos, section_y as int, j, world_min_y as int));
                        } else {
                            assert(results@[results@.len() - 1] == p);
                        }
                    }
                }
                if results.len() >= request.max_results {
                    done = true;
                }
            }
        }
        i = i + 1;
    }
}

/// Chunk `(x, z)` from the center lies on the square ring of `radius`.
pub open spec fn on_ring(radius: int, x: int, z: int) -> bool {
    abs(x) == radius || abs(z) == radius
}

/// The ring positions of column `x`, for the first `n` values of `z` from
/// `-radius` up.
pub open spec fn ring_column(center: ChunkPos, radius: int, x: int, n: nat) -> Seq<ChunkPos>
    decreases n,
{
    if n == 0 {
        Seq::empty()
    } else {
        let z = -radius + n - 1;
        ring_column(center, radius, x, (n - 1) as nat) + if on_ring(radius, x, z) {
            seq![ChunkPos { x: (center.x + x) as i32, z: (center.z + z) as i32 }]
        } else {
            Seq::empty()
        }
    }
}

/// The ring positions of the first `n` columns from `-radius` up.
pub open spec fn ring_columns(center: ChunkPos, radius: int, n: nat) -> Seq<ChunkPos>
    decreases n,
{
    if n == 0 {
        Seq::empty()
    } else {
        ring_columns(center, radius, (n - 1) as nat) + ring_column(
            center,
            radius,
            -radius + n - 1,
            (2 * radius + 1) as nat,
        )
    }
}

/// The chunks at ring `radius` around `center`, column by column: the
/// center alone for radius 0.
pub open spec fn spiral_ring(center: ChunkPos, radius: int) -> Seq<ChunkPos> {
    if radius == 0 {
        seq![center]
    } else {
        ring_columns(center, radius, (2 * radius + 1) as nat)
    }
}

pub open spec fn ring_fits(center: ChunkPos, radius: int) -> bool {
    &&& i32::MIN <= center.x - radius
    &&& center.x + radius <= i32::MAX
    &&& i32::MIN <= center.z - radius
    &&& center.z + radius <= i32::MAX
}

/// The chunks on the square ring of `radius` around `center`.
pub fn spiral_chunk_positions(center: ChunkPos, radius: u32) -> (r: Vec<ChunkPos>)
    requires
        ring_fits(center, radius as int),
    ensures
        r@ == spiral_ring(center, radius as int),
{
    let mut positions: Vec<ChunkPos> = Vec::new();
    if radius == 0 {
        positions.push(center);
        return positions;
    }
    let r: i64 = radius as i64;
    let mut x: i64 = -r;
    while x <= r
        invariant
            r == radius,
            r >= 1,
            -r <= x <= r + 1,
            ring_fits(center, radius as int),
            positions@ == ring_columns(center, r as int, (x + r) as nat),
        decreases r + 1 - x,
    {
        let mut z: i64 = -r;
        while z <= r
            invariant
                r == radius,
                r >= 1,
                -r <= x <= r,
                -r <= z <= r + 1,
                ring_fits(center, radius as int),
                positions@ == ring_columns(center, r as int, (x + r) as nat) + ring_column(
                    center,
                    r as int,
                    x as int,
                    (z + r) as nat,
                ),
            decreases r + 1 - z,
        {
            let ax = if x < 0 { -x } else { x };
            let az = if z < 0 { -z } else { z };
            if ax == r || az == r {
                positions.push(ChunkPos { x: (center.x as i64 + x) as i32, z: (center.z as i64 + z) as i32 });
            }
            z = z + 1;
        }
        x = x + 1;
    }
    positions
}

/// Section `s` of a world whose lowest block is at `min_y` overlaps the
/// band of heights.
pub open spec fn section_in_band(min_y: int, band: (i32, i32), s: int) -> bool {
    min_y + 16 * s <= band.1 && band.0 <= min_y + 16 * s + 15
}

fn in_band_exec(min_y: i32, band: (i32, i32), s: i64) -> (r: bool)
    requires
        0 <= s <= 0x1000_0000,
    ensures
        r == section_in_band(min_y as int, band, s as int),
{
    let lo = min_y as i64 + 16 * s;
    lo <= band.1 as i64 && band.0 as i64 <= lo + 15
}

proof fn lemma_push_keeps(v: Seq<i32>, x: i32, y: i32)
    requires
        v.contains(y),
    ensures
        v.push(x).contains(y),
{
    let k = choose|k: int| 0 <= k < v.len() && v[k] == y;
    assert(v.push(x)[k] == y);
}

/// The player's section, clamped to the `num` sections of the world.
pub open spec fn player_section(min_y: int, num: int, player_y: int) -> int {
    let diff = player_y - min_y;
    if diff < 0 {
        0
    } else if diff / 16 >= num {
        num - 1
    } else {
        diff / 16
    }
}

pub open spec fn dist_to(t: int, c: int) -> int {
    if t >= c { t - c } else { c - t }
}

/// Every entry of `r` is one of the `num` sections, and none is repeated.
pub open spec fn valid_sections(r: Seq<i32>, num: int) -> bool {
    &&& forall|k: int| 0 <= k < r.len() ==> 0 <= #[trigger] r[k] < num
    &&& r.no_duplicates()
}

/// The sections in the band come before the others, nearest section `c`
/// first.
pub open spec fn band_first(r: Seq<i32>, min_y: int, b: (i32, i32), c: int) -> bool {
    &&& forall|i: int, j: int|
        0 <= i < j < r.len() && section_in_band(min_y, b, r[j] as int) ==> section_in_band(
            min_y,
            b,
            #[trigger] r[i] as int,
        ) && dist_to(r[i] as int, c) <= dist_to(#[trigger] r[j] as int, c)
}

impl WorldScanner {
    /// Section indices to scan, of a world whose lowest block is at `min_y`
    /// and `height` blocks tall: with a preferred band, the sections that
    /// overlap it first, nearest the player's section first, then the rest;
    /// without one, bottom to top. Every section is listed once.
    pub fn get_prioritized_y_sections(&self, min_y: i32, height: u32, player_y: i32, band: Option<(i32, i32)>) -> (r: Vec<i32>)
        ensures
            forall|s: int| 0 <= s < height / 16 ==> #[trigger] r@.contains(s as i32),
            valid_sections(r@, (height / 16) as int),
            band matches Some(b) ==> band_first(
                r@,
                min_y as int,
                b,
                player_section(min_y as int, (height / 16) as int, player_y as int),
            ),
            band is None ==> forall|k: int| 0 <= k < r@.len() ==> #[trigger] r@[k] == k,
    {
        let num: i64 = (height / 16) as i64;
        let mut v: Vec<i32> = Vec::new();
        let mut s: i64 = 0;
        match band {
            Some(b) => {
                let ghost c0 = player_section(min_y as int, num as int, player_y as int);
                if num > 0 {
                    let diff: i64 = player_y as i64 - min_y as i64;
                    let c: i64 = if diff < 0 {
                        0
                    } else if diff / 16 >= num {
                        num - 1
                    } else {
                        diff / 16
                    };
                    assert(c == c0);
                    let mut d: i64 = 0;
                    while d <= num
                        invariant
                            0 < num <= 0x1000_0000,
                            0 <= c < num,
                            c == c0,
                            0 <= d <= num + 1,
                            forall|k: int|
                                0 <= k < v@.len() ==> 0 <= #[trigger] v@[k] < num && section_in_band(
                                    min_y as int,
                                    b,
                                    v@[k] as int,
                                ) && dist_to(v@[k] as int, c as int) < d,
                            v@.no_duplicates(),
                            band_first(v@, min_y as int, b, c as int),
                            forall|t: int|
                                0 <= t < num && dist_to(t, c as int) < d && section_in_band(min_y as int, b, t)
                                    ==> #[trigger] v@.contains(t as i32),
                        decreases num + 1 - d,
                    {
                        let ghost v0 = v@;
                        if c + d < num && in_band_exec(min_y, b, c + d) {
                            v.push((c + d) as i32);
                            proof {
                                assert forall|x: int, y: int| 0 <= x < y < v@.len() implies v@[x] != v@[y] by {
                                    if y == v@.len() - 1 {
                                        assert(dist_to(v0[x] as int, c as int) < d);
                                    } else {
                                        assert(v0[x] != v0[y]);
                                    }
                                }
                            }
                        }
                        let ghost v1 = v@;
                        if d > 0 && c - d >= 0 && in_band_exec(min_y, b, c - d) {
                            v.push((c - d) as i32);
                            proof {
                                assert forall|x: int, y: int| 0 <= x < y < v@.len() implies v@[x] != v@[y] by {
                                    if y == v@.len() - 1 {
                                        if x < v0.len() {
                                            assert(dist_to(v0[x] as int, c as int) < d);
                                        }
                                    } else {
                                        assert(v1[x] != v1[y]);
                                    }
                                }
                            }
                        }
                        proof {
                            assert forall|k: int| 0 <= k < v@.len() implies 0 <= #[trigger] v@[k] < num && section_in_band(
                                min_y as int,
                                b,
                                v@[k] as int,
                            ) && dist_to(v@[k] as int, c as int) < d + 1 by {
                                if k < v0.len() {
                                    assert(v@[k] == v0[k]);
                                } else if k < v1.len() {
                                    assert(v@[k] == v1[k]);
                                }
                            }
                            assert forall|x: int, y: int|
                                0 <= x < y < v@.len() && section_in_band(min_y as int, b, v@[y] as int) implies section_in_band(
                                    min_y as int,
                                    b,
                                    #[trigger] v@[x] as int,
                                ) && dist_to(v@[x] as int, c as int) <= dist_to(#[trigger] v@[y] as int, c as int) by {
                                if y < v0.len() {
                                    assert(v@[x] == v0[x] && v@[y] == v0[y]);
                                } else {
                                    if x < v0.len() {
                                        assert(v@[x] == v0[x]);
                                    } else if x < v1.len() {
                                        assert(v@[x] == v1[x]);
                                    }
                                    if y < v1.len() {
                                        assert(v@[y] == v1[y]);
                                    }
                                }
                            }
                            assert forall|t: int|
                                0 <= t < num && dist_to(t, c as int) < d + 1 && section_in_band(min_y as int, b, t)
                                    implies #[trigger] v@.contains(t as i32) by {
                                if dist_to(t, c as int) < d {
                                    assert(v0.contains(t as i32));
                                    if v1 != v0 {
                                        lemma_push_keeps(v0, (c + d) as i32, t as i32);
                                    }
                                    if v@ != v1 {
                                        lemma_push_keeps(v1, (c - d) as i32, t as i32);
                                    }
                                } else if t == c + d {
                                    assert(v1[v1.len() - 1] == t as i32);
                                    assert(v@[v1.len() - 1] == v1[v1.len() - 1]);
                                } else {
                                    assert(v@[v@.len() - 1] == t as i32);
                                }
                            }
                        }
                        d = d + 1;
                    }
                }
                let ghost p1 = v@.len();
                while s < num
                    invariant
                        0 <= num <= 0x1000_0000,
                        0 <= s <= num,
                        p1 <= v@.len(),
                        num > 0 ==> c0 == player_section(min_y as int, num as int, player_y as int) && 0 <= c0 < num,
                        forall|k: int| 0 <= k < v@.len() ==> 0 <= #[trigger] v@[k] < num,
                        forall|k: int| 0 <= k < p1 ==> section_in_band(min_y as int, b, #[trigger] v@[k] as int),
                        forall|k: int| p1 <= k < v@.len() ==> !section_in_band(min_y as int, b, #[trigger] v@[k] as int) && v@[k] < s,
                        v@.no_duplicates(),
                        band_first(v@.take(p1 as int), min_y as int, b, c0),
                        forall|t: int| 0 <= t < num && section_in_band(min_y as int, b, t) ==> #[trigger] v@.contains(t as i32),
                        forall|t: int| 0 <= t < s && !section_in_band(min_y as int, b, t) ==> #[trigger] v@.contains(t as i32),
                    decreases num - s,
                {
                    let ghost v0 = v@;
                    if !in_band_exec(min_y, b, s) {
                        v.push(s as i32);
                        proof {
                            assert forall|x: int, y: int| 0 <= x < y < v@.len() implies v@[x] != v@[y] by {
                                if y == v@.len() - 1 {
                                    if x < p1 {
                                        assert(section_in_band(min_y as int, b, v0[x] as int));
                                    } else {
                                        assert(v0[x] < s);
                                    }
                                } else {
                                    assert(v0[x] != v0[y]);
                                }
                            }
                            assert(v@.take(p1 as int) == v0.take(p1 as int));
                        }
                    }
                    proof {
                        assert forall|t: int| 0 <= t < num && section_in_band(min_y as int, b, t) implies #[trigger] v@.contains(
                            t as i32,
                        ) by {
                            if v@ != v0 {
                                lemma_push_keeps(v0, s as i32, t as i32);
                            }
                        }
                        assert forall|t: int| 0 <= t < s + 1 && !section_in_band(min_y as int, b, t) implies #[trigger] v@.contains(
                            t as i32,
                        ) by {
                            if t < s {
                                if v@ != v0 {
                                    lemma_push_keeps(v0, s as i32, t as i32);
                                }
                            } else {
                                assert(v@[v@.len() - 1] == t as i32);
                            }
                        }
                        assert forall|k: int| 0 <= k < v@.len() implies 0 <= #[trigger] v@[k] < num by {
                            if k < v0.len() {
                                assert(v@[k] == v0[k]);
                            }
                        }
                        assert forall|k: int| 0 <= k < p1 implies section_in_band(min_y as int, b, #[trigger] v@[k] as int) by {
                            assert(v@[k] == v0[k]);
                        }
                        assert forall|k: int| p1 <= k < v@.len() implies !section_in_band(min_y as int, b, #[trigger] v@[k] as int) && v@[k] < s + 1 by {
                            if k < v0.len() {
                                assert(v@[k] == v0[k]);
                            }
                        }
                    }
                    s = s + 1;
                }
                proof {
                    if num > 0 {
                        assert forall|i: int, j: int|
                            0 <= i < j < v@.len() && section_in_band(min_y as int, b, v@[j] as int) implies section_in_band(
                                min_y as int,
                                b,
                                #[trigger] v@[i] as int,
                            ) && dist_to(v@[i] as int, c0) <= dist_to(#[trigger] v@[j] as int, c0) by {
                            assert(j < p1);
                            assert(v@.take(p1 as int)[i] == v@[i]);
                            assert(v@.take(p1 as int)[j] == v@[j]);
                        }
                    } else if v@.len() > 0 {
                        assert(0 <= v@[0] < num);
                    }
                }
            },
            None => {
                while s < num
                    invariant
                        0 <= num <= 0x1000_0000,
                        0 <= s <= num,
                        v@.len() == s,
                        forall|k: int| 0 <= k < v@.len() ==> #[trigger] v@[k] == k,
                    decreases num - s,
                {
                    v.push(s as i32);
                    s = s + 1;
                }
                proof {
                    assert forall|t: int| 0 <= t < num implies #[trigger] v@.contains(t as i32) by {
                        assert(v@[t] == t);
                    }
                }
            },
        }
        v
    }
}

/// `p` holds one of `targets` in a loaded section of `inst`.
pub open spec fn is_hit(inst: Instance, targets: Seq<BlockState>, p: BlockPos) -> bool {
    exists|ci: int, si: int, i: int|
        0 <= ci < inst.chunks@.len() && 0 <= si < inst.chunks@[ci].sections@.len() && 0 <= i
            < inst.chunks@[ci].sections@[si].states@.len() && targets.contains(
            inst.chunks@[ci].sections@[si].states@[i],
        ) && p == #[trigger] section_block_pos(inst.chunks@[ci].pos, si, i, inst.min_y as int)
}

fn section_fits_exec(c: ChunkPos, sy: i32, min_y: i32) -> (r: bool)
    ensures
        r == section_fits(c, sy as int, min_y as int),
{
    let x = c.x as i64 * 16;
    let z = c.z as i64 * 16;
    let y = min_y as i64 + sy as i64 * 16;
    i32::MIN as i64 <= x && x + 15 <= i32::MAX as i64 && i32::MIN as i64 <= z && z + 15
        <= i32::MAX as i64 && i32::MIN as i64 <= y && y + 15 <= i32::MAX as i64
}

/// Chunk `ci` is the first loaded chunk at its position.
pub open spec fn first_chunk(inst: Instance, ci: int) -> bool {
    0 <= ci < inst.chunks@.len() && forall|j: int|
        0 <= j < ci ==> inst.chunks@[j].pos != #[trigger] inst.chunks@[ci].pos
}

/// The section heights that the request scans.
pub open spec fn section_listed(inst: Instance, req: ScanRequest, sy: int) -> bool {
    0 <= sy < inst.height / 16
}

/// Index `i` of section `sy` of chunk `ci` holds one of `targets`, in a part
/// of the world that a scan around `center` with this radius covers: the first loaded chunk at its position within the
/// radius, a section below the world's top whose palette lists its states.
pub open spec fn covered_block(
    inst: Instance,
    targets: Seq<BlockState>,
    center: BlockPos,
    max_radius: u32,
    ci: int,
    sy: int,
    i: int,
) -> bool {
    &&& first_chunk(inst, ci)
    &&& abs(inst.chunks@[ci].pos.x - chunk_of(center).x) <= (max_radius + 15) / 16
    &&& abs(inst.chunks@[ci].pos.z - chunk_of(center).z) <= (max_radius + 15) / 16
    &&& sy <= i32::MAX
    &&& 0 <= sy < inst.height / 16
    &&& 0 <= sy < inst.chunks@[ci].sections@.len()
    &&& section_fits(inst.chunks@[ci].pos, sy, inst.min_y as int)
    &&& section_wf(inst.chunks@[ci].sections@[sy])
    &&& 0 <= i < 4096
    &&& i < inst.chunks@[ci].sections@[sy].states@.len()
    &&& targets.contains(inst.chunks@[ci].sections@[sy].states@[i])
}

/// Every block of a requested state in section `sy` of chunk `ci`, where
/// that section is listed in `ys` and its palette admits a target, is in
/// `found`.
pub open spec fn chunk_covered(inst: Instance, req: ScanRequest, ys: Seq<i32>, ci: int, found: Seq<BlockPos>) -> bool {
    forall|sy: int, i: int|
        #![trigger section_block_pos(inst.chunks@[ci].pos, sy, i, inst.min_y as int)]
        0 <= sy < inst.chunks@[ci].sections@.len() && sy <= i32::MAX && ys.contains(sy as i32)
            && section_fits(inst.chunks@[ci].pos, sy, inst.min_y as int) && palette_may_hold(
            inst.chunks@[ci].sections@[sy].palette,
            req.block_states@,
        ) && 0 <= i < 4096 && i < inst.chunks@[ci].sections@[sy].states@.len()
            && req.block_states@.contains(inst.chunks@[ci].sections@[sy].states@[i]) ==> found.contains(
            section_block_pos(inst.chunks@[ci].pos, sy, i, inst.min_y as int),
        )
}

/// `a` is the start of `b`.
pub open spec fn grows(a: Seq<BlockPos>, b: Seq<BlockPos>) -> bool {
    a.len() <= b.len() && b.take(a.len() as int) == a
}

proof fn lemma_grows_contains(a: Seq<BlockPos>, b: Seq<BlockPos>, x: BlockPos)
    requires
        grows(a, b),
        a.contains(x),
    ensures
        b.contains(x),
{
    let k = choose|k: int| 0 <= k < a.len() && a[k] == x;
    assert(b.take(a.len() as int)[k] == b[k]);
}

proof fn lemma_covered_grows(inst: Instance, req: ScanRequest, ys: Seq<i32>, ci: int, a: Seq<BlockPos>, b: Seq<BlockPos>)
    requires
        chunk_covered(inst, req, ys, ci, a),
        grows(a, b),
    ensures
        chunk_covered(inst, req, ys, ci, b),
{
    assert forall|sy: int, i: int|
        #![trigger section_block_pos(inst.chunks@[ci].pos, sy, i, inst.min_y as int)]
        0 <= sy < inst.chunks@[ci].sections@.len() && sy <= i32::MAX && ys.contains(sy as i32)
            && section_fits(inst.chunks@[ci].pos, sy, inst.min_y as int) && palette_may_hold(
            inst.chunks@[ci].sections@[sy].palette,
            req.block_states@,
        ) && 0 <= i < 4096 && i < inst.chunks@[ci].sections@[sy].states@.len()
            && req.block_states@.contains(inst.chunks@[ci].sections@[sy].states@[i]) implies b.contains(
            section_block_pos(inst.chunks@[ci].pos, sy, i, inst.min_y as int),
        ) by {
        lemma_grows_contains(a, b, section_block_pos(inst.chunks@[ci].pos, sy, i, inst.min_y as int));
    }
}

fn find_chunk(inst: &Instance, pos: ChunkPos) -> (r: Option<usize>)
    ensures
        r matches Some(i) ==> first_chunk(*inst, i as int) && inst.chunks@[i as int].pos == pos,
        r is None ==> forall|j: int| 0 <= j < inst.chunks@.len() ==> inst.chunks@[j].pos != pos,
{
    let mut i: usize = 0;
    while i < inst.chunks.len()
        invariant
            i <= inst.chunks@.len(),
            forall|j: int| 0 <= j < i ==> inst.chunks@[j].pos != pos,
        decreases inst.chunks@.len() - i,
    {
        if inst.chunks[i].pos == pos {
            return Some(i);
        }
        i = i + 1;
    }
    None
}

/// Scans the listed sections of chunk `ci` into `results`, stopping once
/// they reach the request's limit.
fn scan_chunk(results: &mut Vec<BlockPos>, instance: &Instance, ci: usize, ys: &Vec<i32>, request: &ScanRequest)
    requires
        ci < instance.chunks@.len(),
        old(results)@.len() < request.max_results,
        old(results)@.no_duplicates(),
        forall|k: int| 0 <= k < old(results)@.len() ==> is_hit(*instance, request.block_states@, #[trigger] old(results)@[k]),
    ensures
        final(results)@.len() <= request.max_results,
        final(results)@.no_duplicates(),
        grows(old(results)@, final(results)@),
        forall|k: int| 0 <= k < final(results)@.len() ==> is_hit(*instance, request.block_states@, #[trigger] final(results)@[k]),
        final(results)@.len() < request.max_results ==> chunk_covered(*instance, *request, ys@, ci as int, final(results)@),
{
    let chunk = &instance.chunks[ci];
    let chunk_pos = chunk.pos;
    let ghost start = results@;
    assert(results@.take(results@.len() as int) =~= results@);
    let mut s: usize = 0;
    let mut full = false;
    while s < ys.len() && !full
        invariant
            ci < instance.chunks@.len(),
            *chunk == instance.chunks@[ci as int],
            chunk_pos == chunk.pos,
            s <= ys@.len(),
            grows(start, results@),
            results@.no_duplicates(),
            forall|k: int| 0 <= k < results@.len() ==> is_hit(*instance, request.block_states@, #[trigger] results@[k]),
            full ==> results@.len() >= request.max_results,
            results@.len() <= request.max_results,
            !full ==> results@.len() < request.max_results,
            results@.len() < request.max_results ==> forall|sy: int, i: int|
                #![trigger section_block_pos(chunk_pos, sy, i, instance.min_y as int)]
                0 <= sy < chunk.sections@.len() && sy <= i32::MAX && ys@.take(s as int).contains(sy as i32)
                    && section_fits(chunk_pos, sy, instance.min_y as int) && palette_may_hold(
                    chunk.sections@[sy].palette,
                    request.block_states@,
                ) && 0 <= i < 4096 && i < chunk.sections@[sy].states@.len()
                    && request.block_states@.contains(chunk.sections@[sy].states@[i]) ==> results@.contains(
                    section_block_pos(chunk_pos, sy, i, instance.min_y as int),
                ),
        decreases ys@.len() - s + if full { 0int } else { 1int },
    {
        let sy = ys[s];
        let ghost before = results@;
        if sy >= 0 && (sy as usize) < chunk.sections.len() && section_fits_exec(chunk_pos, sy, instance.min_y) {
            scan_chunk_section(results, chunk_pos, &chunk.sections[sy as usize], sy, request, instance.min_y);
            proof {
                let sec = chunk.sections@[sy as int];
                assert(grows(before, results@)) by {
                    assert(results@.take(before.len() as int) == before);
                }
                assert(grows(start, results@)) by {
                    assert(results@.take(start.len() as int) == before.take(start.len() as int));
                }
                assert forall|k: int| 0 <= k < results@.len() implies is_hit(
                    *instance,
                    request.block_states@,
                    #[trigger] results@[k],
                ) by {
                    if k >= before.len() {
                        let j = choose|j: int|
                            0 <= j < 4096 && j < sec.states@.len() && request.block_states@.contains(sec.states@[j])
                                && results@[k] == #[trigger] section_block_pos(chunk_pos, sy as int, j, instance.min_y as int);
                        assert(is_hit(*instance, request.block_states@, section_block_pos(instance.chunks@[ci as int].pos, sy as int, j, instance.min_y as int)));
                    } else {
                        assert(results@[k] == before[k]);
                    }
                }
            }
            if results.len() >= request.max_results {
                full = true;
            }
        }
        proof {
            assert(results@.take(before.len() as int) =~= before);
            assert(grows(before, results@));
            if results@.len() < request.max_results {
                assert forall|y: int, i: int|
                    #![trigger section_block_pos(chunk_pos, y, i, instance.min_y as int)]
                    0 <= y < chunk.sections@.len() && y <= i32::MAX && ys@.take(s + 1).contains(y as i32)
                        && section_fits(chunk_pos, y, instance.min_y as int) && palette_may_hold(
                        chunk.sections@[y].palette,
                        request.block_states@,
                    ) && 0 <= i < 4096 && i < chunk.sections@[y].states@.len()
                        && request.block_states@.contains(chunk.sections@[y].states@[i]) implies results@.contains(
                        section_block_pos(chunk_pos, y, i, instance.min_y as int),
                    ) by {
                    let q = choose|q: int| 0 <= q < s + 1 && #[trigger] ys@.take(s + 1)[q] == y as i32;
                    if q < s {
                        assert(ys@.take(s as int)[q] == y as i32);
                        assert(ys@.take(s as int).contains(y as i32));
                        lemma_grows_contains(before, results@, section_block_pos(chunk_pos, y, i, instance.min_y as int));
                    } else {
                        assert(y == sy);
                        assert(results@.contains(section_block_pos(chunk_pos, y, i, instance.min_y as int)));
                    }
                }
            }
        }
        s = s + 1;
    }
    proof {
        if results@.len() < request.max_results {
            assert(ys@.take(s as int) == ys@);
        }
    }
}

proof fn lemma_column_has(center: ChunkPos, radius: int, x: int, n: nat, z: int)
    requires
        -radius <= z < -radius + n,
        on_ring(radius, x, z),
    ensures
        ring_column(center, radius, x, n).contains(ChunkPos { x: (center.x + x) as i32, z: (center.z + z) as i32 }),
    decreases n,
{
    let prev = ring_column(center, radius, x, (n - 1) as nat);
    let cur = ring_column(center, radius, x, n);
    let c = ChunkPos { x: (center.x + x) as i32, z: (center.z + z) as i32 };
    if z == -radius + n - 1 {
        assert(cur[cur.len() - 1] == c);
    } else {
        lemma_column_has(center, radius, x, (n - 1) as nat, z);
        let k = choose|k: int| 0 <= k < prev.len() && prev[k] == c;
        assert(cur[k] == prev[k]);
    }
}

proof fn lemma_columns_have(center: ChunkPos, radius: int, n: nat, x: int, z: int)
    requires
        radius >= 1,
        -radius <= x < -radius + n,
        -radius <= z <= radius,
        on_ring(radius, x, z),
    ensures
        ring_columns(center, radius, n).contains(ChunkPos { x: (center.x + x) as i32, z: (center.z + z) as i32 }),
    decreases n,
{
    let prev = ring_columns(center, radius, (n - 1) as nat);
    let col = ring_column(center, radius, -radius + n - 1, (2 * radius + 1) as nat);
    let cur = ring_columns(center, radius, n);
    let c = ChunkPos { x: (center.x + x) as i32, z: (center.z + z) as i32 };
    if x == -radius + n - 1 {
        lemma_column_has(center, radius, x, (2 * radius + 1) as nat, z);
        let k = choose|k: int| 0 <= k < col.len() && col[k] == c;
        assert(cur[prev.len() + k] == col[k]);
    } else {
        lemma_columns_have(center, radius, (n - 1) as nat, x, z);
        let k = choose|k: int| 0 <= k < prev.len() && prev[k] == c;
        assert(cur[k] == prev[k]);
    }
}

/// Every chunk on the ring of `radius` around `center` is in its spiral.
proof fn lemma_ring_has(center: ChunkPos, radius: int, c: ChunkPos)
    requires
        radius >= 0,
        abs(c.x - center.x) <= radius,
        abs(c.z - center.z) <= radius,
        abs(c.x - center.x) == radius || abs(c.z - center.z) == radius,
    ensures
        spiral_ring(center, radius).contains(c),
{
    if radius == 0 {
        assert(c == center);
        assert(spiral_ring(center, radius)[0] == c);
    } else {
        lemma_columns_have(center, radius, (2 * radius + 1) as nat, c.x - center.x, c.z - center.z);
        assert(ChunkPos { x: (center.x + (c.x - center.x)) as i32, z: (center.z + (c.z - center.z)) as i32 } == c);
    }
}

/// Scans every loaded chunk of `ring` into `results`.
fn scan_ring(
    results: &mut Vec<BlockPos>,
    instance: &Instance,
    ring: &Vec<ChunkPos>,
    ys: &Vec<i32>,
    request: &ScanRequest,
)
    requires
        old(results)@.len() < request.max_results,
        old(results)@.no_duplicates(),
        forall|k: int| 0 <= k < old(results)@.len() ==> is_hit(*instance, request.block_states@, #[trigger] old(results)@[k]),
    ensures
        final(results)@.len() <= request.max_results,
        final(results)@.no_duplicates(),
        grows(old(results)@, final(results)@),
        forall|k: int| 0 <= k < final(results)@.len() ==> is_hit(*instance, request.block_states@, #[trigger] final(results)@[k]),
        final(results)@.len() < request.max_results ==> forall|ci: int|
            first_chunk(*instance, ci) && ring@.contains(#[trigger] instance.chunks@[ci].pos) ==> chunk_covered(
                *instance,
                *request,
                ys@,
                ci,
                final(results)@,
            ),
{
    let ghost start = results@;
    assert(results@.take(results@.len() as int) =~= results@);
    let mut c: usize = 0;
    let mut full = false;
    while c < ring.len() && !full
        invariant
            c <= ring@.len(),
            grows(start, results@),
            results@.no_duplicates(),
            forall|k: int| 0 <= k < results@.len() ==> is_hit(*instance, request.block_states@, #[trigger] results@[k]),
            full ==> results@.len() >= request.max_results,
            results@.len() <= request.max_results,
            !full ==> results@.len() < request.max_results,
            results@.len() < request.max_results ==> forall|ci: int|
                first_chunk(*instance, ci) && ring@.take(c as int).contains(#[trigger] instance.chunks@[ci].pos)
                    ==> chunk_covered(*instance, *request, ys@, ci, results@),
        decreases ring@.len() - c + if full { 0int } else { 1int },
    {
        let chunk_pos = ring[c];
        let ghost before = results@;
        let found = find_chunk(instance, chunk_pos);
        match found {
            Some(ci) => {
                scan_chunk(results, instance, ci, ys, request);
                proof {
                    assert(grows(start, results@)) by {
                        assert(results@.take(start.len() as int) == before.take(start.len() as int));
                    }
                }
            },
            None => {
                assert(results@.take(before.len() as int) =~= before);
            },
        }
        proof {
            if results@.len() < request.max_results {
                assert forall|cj: int|
                    first_chunk(*instance, cj) && ring@.take(c + 1).contains(#[trigger] instance.chunks@[cj].pos)
                        implies chunk_covered(*instance, *request, ys@, cj, results@) by {
                    let q = choose|q: int| 0 <= q < c + 1 && #[trigger] ring@.take(c + 1)[q] == instance.chunks@[cj].pos;
                    if q < c {
                        assert(ring@.take(c as int)[q] == instance.chunks@[cj].pos);
                        assert(ring@.take(c as int).contains(instance.chunks@[cj].pos));
                        lemma_covered_grows(*instance, *request, ys@, cj, before, results@);
                    } else {
                        assert(instance.chunks@[cj].pos == chunk_pos);
                        match found {
                            Some(ci) => {
                                if (ci as int) < cj {
                                    assert(instance.chunks@[ci as int].pos != instance.chunks@[cj].pos);
                                } else if cj < (ci as int) {
                                    assert(instance.chunks@[cj].pos != instance.chunks@[ci as int].pos);
                                }
                            },
                            None => {
                                assert(instance.chunks@[cj].pos != chunk_pos);
                            },
                        }
                    }
                }
            }
        }
        if results.len() >= request.max_results {
            full = true;
        }
        c = c + 1;
    }
    proof {
        if results@.len() < request.max_results {
            assert(ring@.take(c as int) == ring@);
        }
    }
}

impl WorldScanner {
    pub fn new() -> (r: WorldScanner)
        ensures
            r.cache().len() == 0,
    {
        WorldScanner { ore_cache: Vec::new() }
    }

    /// Ore locations seen, by block state.
    pub closed spec fn cache(&self) -> Seq<(BlockState, Vec<CachedOreLocation>)> {
        self.ore_cache@
    }

    /// The section indices a request scans, as a list.
    fn listed_sections(&self, instance: &Instance, request: &ScanRequest) -> (r: Vec<i32>)
        ensures
            forall|sy: int| sy <= i32::MAX && section_listed(*instance, *request, sy) ==> r@.contains(sy as i32),
    {
        self.get_prioritized_y_sections(instance.min_y, instance.height, request.center_pos.y, request.prefer_y_levels)
    }

    /// Scans the chunks ring by ring out from the request's center, each
    /// chunk's sections in priority order, for blocks of the requested
    /// states, up to `max_results`; then orders them by Manhattan distance.
    /// Every position found holds a requested state. A complete scan (one
    /// that stopped short of the limit) found every such block in the first
    /// loaded chunk at each position within the radius, in every section
    /// whose palette lists its states.
    pub fn scan_for_blocks(&mut self, instance: &Instance, request: ScanRequest) -> (r: ScanResult)
        ensures
            final(self).cache() == old(self).cache(),
            forall|k: int|
                0 <= k < r.positions@.len() ==> is_hit(
                    *instance,
                    request.block_states@,
                    #[trigger] r.positions@[k],
                ),
            sorted_by_key(r.positions@, request.center_pos, true),
            r.positions@.len() <= request.max_results,
            r.positions@.no_duplicates(),
            r.is_complete == (r.positions@.len() < request.max_results),
            r.is_complete && ring_fits(chunk_of(request.center_pos), (request.max_radius + 15) / 16) ==> forall|
                ci: int,
                sy: int,
                i: int,
            |
                #![trigger section_block_pos(instance.chunks@[ci].pos, sy, i, instance.min_y as int)]
                first_chunk(*instance, ci) && abs(instance.chunks@[ci].pos.x - chunk_of(request.center_pos).x)
                    <= (request.max_radius + 15) / 16 && abs(
                    instance.chunks@[ci].pos.z - chunk_of(request.center_pos).z,
                ) <= (request.max_radius + 15) / 16 && sy <= i32::MAX && section_listed(*instance, request, sy)
                    && 0 <= sy < instance.chunks@[ci].sections@.len() && section_fits(
                    instance.chunks@[ci].pos,
                    sy,
                    instance.min_y as int,
                ) && section_wf(instance.chunks@[ci].sections@[sy]) && 0
                    <= i < 4096 && i < instance.chunks@[ci].sections@[sy].states@.len()
                    && request.block_states@.contains(instance.chunks@[ci].sections@[sy].states@[i])
                    ==> r.positions@.contains(section_block_pos(instance.chunks@[ci].pos, sy, i, instance.min_y as int)),
    {
        let mut positions: Vec<BlockPos> = Vec::new();
        let start_chunk = request.center_pos.chunk();
        let max_chunk_radius: u64 = (request.max_radius as u64 + 15) / 16;
        let ys = self.listed_sections(instance, &request);
        let ghost big_r = (request.max_radius + 15) / 16;
        let mut radius: u64 = 0;
        let mut full = false;
        while radius <= max_chunk_radius && !full
            invariant
                max_chunk_radius == big_r,
                max_chunk_radius <= 0x1000_0000,
                radius <= max_chunk_radius + 1,
                full ==> positions@.len() >= request.max_results,
                positions@.len() <= request.max_results,
                positions@.no_duplicates(),
                forall|k: int|
                    0 <= k < positions@.len() ==> is_hit(
                        *instance,
                        request.block_states@,
                        #[trigger] positions@[k],
                    ),
                positions@.len() < request.max_results && ring_fits(start_chunk, big_r) ==> forall|ci: int|
                    first_chunk(*instance, ci) && abs(instance.chunks@[ci].pos.x - start_chunk.x) < radius && abs(
                        #[trigger] instance.chunks@[ci].pos.z - start_chunk.z,
                    ) < radius ==> chunk_covered(*instance, request, ys@, ci, positions@),
            decreases max_chunk_radius + 1 - radius + if full { 0int } else { 1int },
        {
            if positions.len() >= request.max_results {
                full = true;
            } else {
                let fits = start_chunk.x as i64 - radius as i64 >= i32::MIN as i64 && start_chunk.x as i64
                    + radius as i64 <= i32::MAX as i64 && start_chunk.z as i64 - radius as i64
                    >= i32::MIN as i64 && start_chunk.z as i64 + radius as i64 <= i32::MAX as i64;
                let ghost before = positions@;
                if fits {
                    let ring = spiral_chunk_positions(start_chunk, radius as u32);
                    scan_ring(&mut positions, instance, &ring, &ys, &request);
                    proof {
                        if positions@.len() < request.max_results && ring_fits(start_chunk, big_r) {
                            assert forall|ci: int|
                                first_chunk(*instance, ci) && abs(instance.chunks@[ci].pos.x - start_chunk.x) < radius
                                    + 1 && abs(#[trigger] instance.chunks@[ci].pos.z - start_chunk.z) < radius + 1
                                    implies chunk_covered(*instance, request, ys@, ci, positions@) by {
                                let c = instance.chunks@[ci].pos;
                                if abs(c.x - start_chunk.x) < radius && abs(c.z - start_chunk.z) < radius {
                                    lemma_covered_grows(*instance, request, ys@, ci, before, positions@);
                                } else {
                                    lemma_ring_has(start_chunk, radius as int, c);
                                }
                            }
                        }
                    }
                } else {
                    proof {
                        assert(!ring_fits(start_chunk, big_r));
                    }
                }
                if positions.len() >= request.max_results {
                    full = true;
                }
                radius = radius + 1;
            }
        }
        let sorted = sort_by_distance(&positions, request.center_pos, true);
        proof {
            positions@.lemma_multiset_has_no_duplicates();
            sorted@.lemma_multiset_has_no_duplicates_conv();
            assert forall|k: int| 0 <= k < sorted@.len() implies is_hit(
                *instance,
                request.block_states@,
                #[trigger] sorted@[k],
            ) by {
                to_multiset_contains(sorted@, sorted@[k]);
                to_multiset_contains(positions@, sorted@[k]);
                assert(sorted@.contains(sorted@[k]));
                let j = choose|j: int| 0 <= j < positions@.len() && positions@[j] == sorted@[k];
                assert(is_hit(*instance, request.block_states@, positions@[j]));
            }
            if sorted@.len() < request.max_results && ring_fits(start_chunk, big_r) {
                assert forall|ci: int, sy: int, i: int|
                    #![trigger section_block_pos(instance.chunks@[ci].pos, sy, i, instance.min_y as int)]
                    first_chunk(*instance, ci) && abs(instance.chunks@[ci].pos.x - start_chunk.x) <= big_r && abs(
                        instance.chunks@[ci].pos.z - start_chunk.z,
                    ) <= big_r && sy <= i32::MAX && section_listed(*instance, request, sy) && 0 <= sy
                        < instance.chunks@[ci].sections@.len() && section_fits(
                        instance.chunks@[ci].pos,
                        sy,
                        instance.min_y as int,
                    ) && section_wf(instance.chunks@[ci].sections@[sy])
                        && 0 <= i < 4096 && i < instance.chunks@[ci].sections@[sy].states@.len()
                        && request.block_states@.contains(instance.chunks@[ci].sections@[sy].states@[i])
                        implies sorted@.contains(section_block_pos(instance.chunks@[ci].pos, sy, i, instance.min_y as int)) by {
                    let p = section_block_pos(instance.chunks@[ci].pos, sy, i, instance.min_y as int);
                    lemma_wf_palette(instance.chunks@[ci].sections@[sy], request.block_states@, i);
                    assert(ys@.contains(sy as i32));
                    assert(chunk_covered(*instance, request, ys@, ci, positions@));
                    assert(positions@.contains(p));
                    to_multiset_contains(positions@, p);
                    to_multiset_contains(sorted@, p);
                }
            }
        }
        let complete = sorted.len() < request.max_results;
        ScanResult { positions: sorted, is_complete: complete }
    }
}

/// The locations remembered for `s`: those of its latest entry, else none.
pub open spec fn locations_in(c: Seq<(BlockState, Vec<CachedOreLocation>)>, s: BlockState) -> Seq<CachedOreLocation>
    decreases c.len(),
{
    if c.len() == 0 {
        Seq::empty()
    } else if c.last().0 == s {
        c.last().1@
    } else {
        locations_in(c.drop_last(), s)
    }
}

/// The entries of `c` for states other than `s`.
pub open spec fn without(c: Seq<(BlockState, Vec<CachedOreLocation>)>, s: BlockState) -> Seq<(BlockState, Vec<CachedOreLocation>)>
    decreases c.len(),
{
    if c.len() == 0 {
        c
    } else if c.last().0 == s {
        without(c.drop_last(), s)
    } else {
        without(c.drop_last(), s).push(c.last())
    }
}

proof fn lemma_without_keeps(c: Seq<(BlockState, Vec<CachedOreLocation>)>, s: BlockState, q: BlockState)
    requires
        q != s,
    ensures
        locations_in(without(c, s), q) == locations_in(c, q),
    decreases c.len(),
{
    if c.len() > 0 {
        lemma_without_keeps(c.drop_last(), s, q);
        if c.last().0 != s {
            assert(without(c, s).drop_last() == without(c.drop_last(), s));
        }
    }
}

proof fn lemma_without_remove(c: Seq<(BlockState, Vec<CachedOreLocation>)>, s: BlockState, i: int)
    requires
        0 <= i < c.len(),
        c[i].0 == s,
    ensures
        without(c.remove(i), s) == without(c, s),
    decreases c.len(),
{
    if i == c.len() - 1 {
        assert(c.remove(i) == c.drop_last());
    } else {
        assert(c.remove(i).drop_last() == c.drop_last().remove(i));
        assert(c.remove(i).last() == c.last());
        lemma_without_remove(c.drop_last(), s, i);
    }
}

proof fn lemma_without_none(c: Seq<(BlockState, Vec<CachedOreLocation>)>, s: BlockState)
    requires
        forall|j: int| 0 <= j < c.len() ==> c[j].0 != s,
    ensures
        without(c, s) == c,
    decreases c.len(),
{
    if c.len() > 0 {
        lemma_without_none(c.drop_last(), s);
        assert(c.drop_last().push(c.last()) == c);
    }
}

/// A location first seen at `now` at `p`, its reachability unknown.
pub open spec fn seen_at(p: BlockPos, now: u64) -> CachedOreLocation {
    CachedOreLocation { pos: p, chunk_pos: chunk_of(p), last_seen: now, is_accessible: None }
}

impl WorldScanner {
    /// Remembers `locations` as where `block_state` was seen at `now`,
    /// replacing what was remembered for it.
    pub fn cache_ore_locations(&mut self, block_state: BlockState, locations: Vec<BlockPos>, now: u64)
        ensures
            locations_in(final(self).cache(), block_state) == locations@.map_values(
                |p: BlockPos| seen_at(p, now),
            ),
            forall|q: BlockState|
                q != block_state ==> locations_in(final(self).cache(), q) == locations_in(
                    old(self).cache(),
                    q,
                ),
    {
        let mut cached: Vec<CachedOreLocation> = Vec::new();
        let mut k: usize = 0;
        while k < locations.len()
            invariant
                k <= locations@.len(),
                cached@ == locations@.take(k as int).map_values(|p: BlockPos| seen_at(p, now)),
            decreases locations@.len() - k,
        {
            let p = locations[k];
            cached.push(CachedOreLocation { pos: p, chunk_pos: p.chunk(), last_seen: now, is_accessible: None });
            proof {
                assert(locations@.take(k + 1) == locations@.take(k as int).push(p));
                assert(cached@ =~= locations@.take(k + 1).map_values(|p: BlockPos| seen_at(p, now)));
            }
            k = k + 1;
        }
        proof {
            assert(locations@.take(locations@.len() as int) == locations@);
        }
        let ghost c0 = self.ore_cache@;
        let mut i: usize = 0;
        while i < self.ore_cache.len()
            invariant
                i <= self.ore_cache@.len(),
                without(self.ore_cache@, block_state) == without(c0, block_state),
                forall|j: int| 0 <= j < i ==> self.ore_cache@[j].0 != block_state,
            decreases self.ore_cache@.len() - i,
        {
            if self.ore_cache[i].0 == block_state {
                proof {
                    lemma_without_remove(self.ore_cache@, block_state, i as int);
                }
                self.ore_cache.remove(i);
            } else {
                i = i + 1;
            }
        }
        proof {
            lemma_without_none(self.ore_cache@, block_state);
        }
        self.ore_cache.push((block_state, cached));
        proof {
            let c1 = self.ore_cache@;
            assert(c1.drop_last() == without(c0, block_state));
            assert forall|q: BlockState| q != block_state implies locations_in(c1, q) == locations_in(c0, q) by {
                lemma_without_keeps(c0, block_state, q);
            }
        }
    }
}

/// The positions of `locs` seen at most `max_age` before `now` and not
/// known to be unreachable, in order.
pub open spec fn fresh_positions(locs: Seq<CachedOreLocation>, max_age: u64, now: u64) -> Seq<BlockPos>
    decreases locs.len(),
{
    if locs.len() == 0 {
        Seq::empty()
    } else {
        let l = locs.last();
        let age: int = if now >= l.last_seen { now - l.last_seen } else { 0 };
        fresh_positions(locs.drop_last(), max_age, now) + if age <= max_age && l.is_accessible != Some(
            false,
        ) {
            seq![l.pos]
        } else {
            Seq::empty()
        }
    }
}

/// The locations of `locs` in one of the chunks `loaded`, in order.
pub open spec fn in_loaded(locs: Seq<CachedOreLocation>, loaded: Seq<ChunkPos>) -> Seq<CachedOreLocation>
    decreases locs.len(),
{
    if locs.len() == 0 {
        Seq::empty()
    } else {
        in_loaded(locs.drop_last(), loaded) + if loaded.contains(locs.last().chunk_pos) {
            seq![locs.last()]
        } else {
            Seq::empty()
        }
    }
}

/// `l` with its first location at `pos` marked as reachable or not.
pub open spec fn mark_first(l: Seq<CachedOreLocation>, pos: BlockPos, accessible: bool, j: int) -> Seq<CachedOreLocation> {
    l.update(j, CachedOreLocation { is_accessible: Some(accessible), ..l[j] })
}

pub open spec fn holds_pos(l: Seq<CachedOreLocation>, pos: BlockPos) -> bool {
    exists|j: int| 0 <= j < l.len() && (#[trigger] l[j]).pos == pos
}

fn contains_chunk(v: &Vec<ChunkPos>, c: ChunkPos) -> (r: bool)
    ensures
        r == v@.contains(c),
{
    let mut i: usize = 0;
    while i < v.len()
        invariant
            i <= v@.len(),
            forall|j: int| 0 <= j < i ==> v@[j] != c,
        decreases v@.len() - i,
    {
        if v[i] == c {
            return true;
        }
        i = i + 1;
    }
    false
}

fn find_latest(c: &Vec<(BlockState, Vec<CachedOreLocation>)>, s: BlockState) -> (r: Option<usize>)
    ensures
        r matches Some(i) ==> i < c@.len() && c@[i as int].0 == s && locations_in(c@, s) == c@[i as int].1@,
        r is None ==> locations_in(c@, s).len() == 0,
{
    let mut i = c.len();
    proof {
        assert(c@.subrange(0, i as int) == c@);
    }
    while i > 0
        invariant
            i <= c@.len(),
            locations_in(c@, s) == locations_in(c@.subrange(0, i as int), s),
        decreases i,
    {
        proof {
            let sub = c@.subrange(0, i as int);
            assert(sub.drop_last() == c@.subrange(0, i - 1));
            assert(sub.last() == c@[i - 1]);
        }
        if c[i - 1].0 == s {
            return Some(i - 1);
        }
        i = i - 1;
    }
    None
}

impl WorldScanner {
    /// Where `block_state` was seen at most `max_age` milliseconds before
    /// `now`, leaving out locations known to be unreachable.
    pub fn get_cached_ore_locations(&self, block_state: BlockState, max_age: u64, now: u64) -> (r: Vec<BlockPos>)
        ensures
            r@ == fresh_positions(locations_in(self.cache(), block_state), max_age, now),
    {
        let mut out: Vec<BlockPos> = Vec::new();
        match find_latest(&self.ore_cache, block_state) {
            None => {
                proof {
                    assert(locations_in(self.cache(), block_state) =~= Seq::<CachedOreLocation>::empty());
                }
                out
            },
            Some(i) => {
                let locs = &self.ore_cache[i].1;
                let mut k: usize = 0;
                while k < locs.len()
                    invariant
                        k <= locs@.len(),
                        out@ == fresh_positions(locs@.take(k as int), max_age, now),
                    decreases locs@.len() - k,
                {
                    let l = locs[k];
                    proof {
                        assert(locs@.take(k + 1).drop_last() == locs@.take(k as int));
                        assert(locs@.take(k + 1).last() == l);
                    }
                    let age = if now >= l.last_seen { now - l.last_seen } else { 0 };
                    let fresh = age <= max_age && l.is_accessible != Some(false);
                    if fresh {
                        out.push(l.pos);
                    }
                    k = k + 1;
                }
                proof {
                    assert(locs@.take(locs@.len() as int) == locs@);
                }
                out
            },
        }
    }

    /// Keeps only the locations in the chunks `loaded`.
    pub fn cleanup_unloaded_chunks(&mut self, loaded: &Vec<ChunkPos>)
        ensures
            final(self).cache().len() == old(self).cache().len(),
            forall|i: int|
                0 <= i < old(self).cache().len() ==> (#[trigger] final(self).cache()[i]).0 == old(self).cache()[i].0
                    && final(self).cache()[i].1@ == in_loaded(old(self).cache()[i].1@, loaded@),
    {
        let mut fresh: Vec<(BlockState, Vec<CachedOreLocation>)> = Vec::new();
        let mut i: usize = 0;
        while i < self.ore_cache.len()
            invariant
                i <= self.ore_cache@.len(),
                self.ore_cache@ == old(self).cache(),
                fresh@.len() == i,
                forall|q: int|
                    0 <= q < i ==> (#[trigger] fresh@[q]).0 == self.ore_cache@[q].0 && fresh@[q].1@
                        == in_loaded(self.ore_cache@[q].1@, loaded@),
            decreases self.ore_cache@.len() - i,
        {
            let locs = &self.ore_cache[i].1;
            let mut kept: Vec<CachedOreLocation> = Vec::new();
            let mut k: usize = 0;
            while k < locs.len()
                invariant
                    k <= locs@.len(),
                    kept@ == in_loaded(locs@.take(k as int), loaded@),
                decreases locs@.len() - k,
            {
                let l = locs[k];
                proof {
                    assert(locs@.take(k + 1).drop_last() == locs@.take(k as int));
                    assert(locs@.take(k + 1).last() == l);
                }
                if contains_chunk(loaded, l.chunk_pos) {
                    kept.push(l);
                }
                k = k + 1;
            }
            proof {
                assert(locs@.take(locs@.len() as int) == locs@);
            }
            let ghost before = fresh@;
            fresh.push((self.ore_cache[i].0, kept));
            proof {
                assert forall|q: int| 0 <= q < i + 1 implies (#[trigger] fresh@[q]).0 == self.ore_cache@[q].0
                    && fresh@[q].1@ == in_loaded(self.ore_cache@[q].1@, loaded@) by {
                    if q < i {
                        assert(fresh@[q] == before[q]);
                    }
                }
            }
            i = i + 1;
        }
        self.ore_cache = fresh;
    }

    /// Marks the first remembered location at `pos` as reachable or not.
    pub fn mark_ore_accessibility(&mut self, pos: BlockPos, accessible: bool)
        ensures
            final(self).cache().len() == old(self).cache().len(),
            (forall|i: int| 0 <= i < old(self).cache().len() ==> !holds_pos(#[trigger] old(self).cache()[i].1@, pos))
                ==> final(self).cache() == old(self).cache(),
            forall|i: int|
                0 <= i < old(self).cache().len() ==> (#[trigger] final(self).cache()[i]).0 == old(self).cache()[i].0,
            forall|i: int|
                0 <= i < old(self).cache().len() ==> final(self).cache()[i].1@ == old(self).cache()[i].1@ || exists|j: int|
                    0 <= j < old(self).cache()[i].1@.len() && old(self).cache()[i].1@[j].pos == pos && (forall|jj: int|
                        0 <= jj < j ==> old(self).cache()[i].1@[jj].pos != pos) && final(self).cache()[i].1@
                        == mark_first(old(self).cache()[i].1@, pos, accessible, j),
    {
        let mut i: usize = 0;
        let mut done = false;
        while i < self.ore_cache.len() && !done
            invariant
                i <= self.ore_cache@.len(),
                self.ore_cache@.len() == old(self).cache().len(),
                forall|q: int|
                    0 <= q < self.ore_cache@.len() ==> (#[trigger] self.ore_cache@[q]).0 == old(self).cache()[q].0,
                forall|q: int|
                    0 <= q < self.ore_cache@.len() ==> self.ore_cache@[q].1@ == old(self).cache()[q].1@ || exists|j: int|
                        0 <= j < old(self).cache()[q].1@.len() && old(self).cache()[q].1@[j].pos == pos && (forall|jj: int|
                            0 <= jj < j ==> old(self).cache()[q].1@[jj].pos != pos) && self.ore_cache@[q].1@
                            == mark_first(old(self).cache()[q].1@, pos, accessible, j),
                !done ==> self.ore_cache@ == old(self).cache(),
                !done ==> forall|q: int| 0 <= q < i ==> !holds_pos(#[trigger] old(self).cache()[q].1@, pos),
                done ==> i < self.ore_cache@.len() && holds_pos(old(self).cache()[i as int].1@, pos),
            decreases self.ore_cache@.len() - i + if done { 0int } else { 1int },
        {
            let locs = &self.ore_cache[i].1;
            let mut j: usize = 0;
            let mut found = false;
            while j < locs.len() && !found
                invariant
                    j <= locs@.len(),
                    !found ==> forall|jj: int| 0 <= jj < j ==> locs@[jj].pos != pos,
                    found ==> j < locs@.len() && locs@[j as int].pos == pos && forall|jj: int|
                        0 <= jj < j ==> locs@[jj].pos != pos,
                decreases locs@.len() - j + if found { 0int } else { 1int },
            {
                if locs[j].pos == pos {
                    found = true;
                } else {
                    j = j + 1;
                }
            }
            if found {
                let mut updated: Vec<CachedOreLocation> = Vec::new();
                let mut k: usize = 0;
                let ghost target = mark_first(locs@, pos, accessible, j as int);
                while k < locs.len()
                    invariant
                        k <= locs@.len(),
                        j < locs@.len(),
                        target == mark_first(locs@, pos, accessible, j as int),
                        updated@ == target.take(k as int),
                    decreases locs@.len() - k,
                {
                    let mut l = locs[k];
                    if k == j {
                        l.is_accessible = Some(accessible);
                    }
                    updated.push(l);
                    proof {
                        assert(target.take(k + 1) == target.take(k as int).push(target[k as int]));
                    }
                    k = k + 1;
                }
                proof {
                    assert(target.take(locs@.len() as int) == target);
                }
                let st = self.ore_cache[i].0;
                let ghost before = self.ore_cache@;
                self.ore_cache.set(i, (st, updated));
                proof {
                    assert(before[i as int].1@ == old(self).cache()[i as int].1@);
                    assert(old(self).cache()[i as int].1@[j as int].pos == pos);
                    assert forall|q: int|
                        0 <= q < self.ore_cache@.len() implies self.ore_cache@[q].1@ == old(self).cache()[q].1@
                            || exists|jj: int|
                            0 <= jj < old(self).cache()[q].1@.len() && old(self).cache()[q].1@[jj].pos == pos && (
                            forall|j2: int| 0 <= j2 < jj ==> old(self).cache()[q].1@[j2].pos != pos)
                            && self.ore_cache@[q].1@ == mark_first(old(self).cache()[q].1@, pos, accessible, jj) by {
                        if q == i {
                            assert(self.ore_cache@[q].1@ == mark_first(old(self).cache()[q].1@, pos, accessible, j as int));
                        } else {
                            assert(self.ore_cache@[q] == before[q]);
                        }
                    }
                    assert forall|q: int| 0 <= q < self.ore_cache@.len() implies (#[trigger] self.ore_cache@[q]).0
                        == old(self).cache()[q].0 by {
                        if q != i {
                            assert(self.ore_cache@[q] == before[q]);
                        }
                    }
                }
                done = true;
            } else {
                proof {
                    assert(!holds_pos(old(self).cache()[i as int].1@, pos));
                }
                i = i + 1;
            }
        }
    }
}

} // verus!
