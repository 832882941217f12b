//! NPC tactics, the decisions the AI makes each turn: which threat to
//! target and whether to keep a target it can no longer see, where to
//! patrol, when to pause or look around, how to dodge a blast or flee a
//! fire, where to flank, and how to aim.
use vstd::prelude::*;

use crate::components::{AiMemory, AiTarget, AimingStyle, EntityId, Faction};
use crate::gamemap::GameMap;
use crate::graphics::{Floor, Props};
use crate::influence::{ai_cost_spec, tile_cost_for_ai};
use crate::influence::{entities_unique, faction_of};
use crate::noise::fraction_below;
use crate::particles::Particle;
use crate::resources::{roll_spec, DynamicRng, SpatialIndex};
use crate::grid_vec::{
    abs_int, add_spec, chebyshev, dir8, dir8_index, is_king_dir, king_step_spec, rot45_spec, rot_cw, sub_spec, GridVec,
};
use crate::pathfinding::path_coord_ok;

verus! {

/// Any hostile this close forces an NPC into combat.
pub const PROXIMITY_OVERRIDE_RANGE: i32 = 5;
/// A hostile this close takes priority over any other target.
pub const CLOSE_THREAT_RANGE: i32 = 8;
/// Turns without a sighting before a locked target is dropped.
pub const TARGET_LOCK_TIMEOUT: u32 = 20;
/// Turns an NPC remembers where it last saw a target.
pub const MEMORY_DURATION: u32 = 40;
/// How far a patrolling lawman strays from home.
pub const PATROL_RADIUS: i32 = 12;
/// Shortest interval between circular look-arounds.
pub const LOOK_AROUND_BASE_INTERVAL: u32 = 20;
/// Spread of the look-around interval.
pub const LOOK_AROUND_DICE_RANGE: u32 = 20;
/// Range within which allies share the position of a threat.
pub const ALLY_SHARE_RANGE: i32 = 20;
/// Minimum range of an NPC's shot.
pub const AI_RANGED_ATTACK_RANGE: i32 = 15;
/// Knuth's MMIX multiplier, used to scatter snap shots.
pub const HASH_LCG: u64 = 6364136223846793005;
/// Cursor steps after which an NPC fires without its cursor on target.
pub const BLIND_FIRE_STEPS: u8 = 4;
/// Search sweeps at a target's last known position before giving up.
pub const MAX_SEARCH_SWEEPS: u8 = 2;

/// A hostile seen by an NPC: the entity, where it stands, and its threat
/// score.
pub type Threat = (EntityId, GridVec, i32);

/// `p` is within `range` (Chebyshev) of `me`; any `p` when there is no
/// range.
pub open spec fn within(me: GridVec, p: GridVec, range: Option<i32>) -> bool {
    match range {
        Some(r) => chebyshev(me, p) <= r,
        None => true,
    }
}

/// The index of the top threat among the first `k` hostiles within
/// `range`: the highest score, the later one on a tie.
pub open spec fn top_threat(hs: Seq<Threat>, me: GridVec, range: Option<i32>, k: int) -> Option<int>
    decreases k,
{
    if k <= 0 {
        None
    } else {
        let prev = top_threat(hs, me, range, k - 1);
        if within(me, hs[k - 1].1, range) && (prev is None || hs[k - 1].2 >= hs[prev.unwrap()].2) {
            Some(k - 1)
        } else {
            prev
        }
    }
}

/// The chosen threat, as an entity and a position.
pub open spec fn threat_pick(hs: Seq<Threat>, me: GridVec, range: Option<i32>) -> Option<(EntityId, GridVec)> {
    match top_threat(hs, me, range, hs.len() as int) {
        Some(i) => Some((hs[i].0, hs[i].1)),
        None => None,
    }
}

/// Every hostile's distance from `me` can be measured.
pub open spec fn measurable(hs: Seq<Threat>, me: GridVec) -> bool {
    forall|i: int|
        0 <= i < hs.len() ==> abs_int((#[trigger] hs[i]).1.x - me.x) <= i32::MAX && abs_int(hs[i].1.y - me.y)
            <= i32::MAX
}

/// The top threat among the hostiles within `range` of `my_pos` (all of
/// them when `range` is `None`): the highest score, the later one on a
/// tie; `None` when none is within range.
pub fn pick_threat(hostiles: &[Threat], my_pos: GridVec, range: Option<i32>) -> (r: Option<(EntityId, GridVec)>)
    requires
        measurable(hostiles@, my_pos),
    ensures
        r == threat_pick(hostiles@, my_pos, range),
{
    let mut best: Option<usize> = None;
    let mut i: usize = 0;
    while i < hostiles.len()
        invariant
            i <= hostiles@.len(),
            measurable(hostiles@, my_pos),
            top_threat(hostiles@, my_pos, range, i as int) == match best {
                Some(b) => Some(b as int),
                None => None::<int>,
            },
            best matches Some(k) ==> k < i,
        decreases hostiles@.len() - i,
    {
        let (_, p, score) = hostiles[i];
        proof {
            assert(abs_int(hostiles@[i as int].1.x - my_pos.x) <= i32::MAX);
        }
        let inside = match range {
            Some(r) => my_pos.chebyshev_distance(p) <= r,
            None => true,
        };
        proof {
            assert(inside == within(my_pos, hostiles@[i as int].1, range));
        }
        if inside {
            let better = match best {
                Some(k) => score >= hostiles[k].2,
                None => true,
            };
            if better {
                best = Some(i);
            }
        }
        proof {
            assert(top_threat(hostiles@, my_pos, range, i + 1) == if within(my_pos, hostiles@[i as int].1, range) && (
            top_threat(hostiles@, my_pos, range, i as int) is None || hostiles@[i as int].2 >= hostiles@[top_threat(
                hostiles@,
                my_pos,
                range,
                i as int,
            ).unwrap()].2) {
                Some(i as int)
            } else {
                top_threat(hostiles@, my_pos, range, i as int)
            });
        }
        i = i + 1;
    }
    match best {
        Some(k) => Some((hostiles[k].0, hostiles[k].1)),
        None => None,
    }
}

/// The top threat within a range is within it, and there is one as soon
/// as any hostile is within the range.
proof fn lemma_top_threat_within(hs: Seq<Threat>, me: GridVec, range: Option<i32>, k: int)
    requires
        0 <= k <= hs.len(),
    ensures
        top_threat(hs, me, range, k) matches Some(i) ==> 0 <= i < k && within(me, hs[i].1, range),
        (exists|j: int| 0 <= j < k && #[trigger] within(me, hs[j].1, range)) ==> top_threat(hs, me, range, k) is Some,
    decreases k,
{
    if k > 0 {
        lemma_top_threat_within(hs, me, range, k - 1);
        if exists|j: int| 0 <= j < k && #[trigger] within(me, hs[j].1, range) {
            let j = choose|j: int| 0 <= j < k && #[trigger] within(me, hs[j].1, range);
            if j < k - 1 {
                assert(top_threat(hs, me, range, k - 1) is Some);
            }
        }
    }
}

/// A close-range threat always wins: when any hostile stands within
/// `CLOSE_THREAT_RANGE`, the target taken is one within that range.
pub proof fn law_close_threat_wins(hs: Seq<Threat>, me: GridVec, j: int)
    requires
        0 <= j < hs.len(),
        chebyshev(me, hs[j].1) <= CLOSE_THREAT_RANGE,
    ensures
        fresh_target_spec(hs, me) matches Some(t) && chebyshev(me, t.1) <= CLOSE_THREAT_RANGE,
{
    assert(within(me, hs[j].1, Some(CLOSE_THREAT_RANGE)));
    lemma_top_threat_within(hs, me, Some(CLOSE_THREAT_RANGE), hs.len() as int);
}

/// The target an NPC takes from what it sees this turn: the top threat
/// within `CLOSE_THREAT_RANGE`, else the top threat overall.
pub open spec fn fresh_target_spec(hs: Seq<Threat>, me: GridVec) -> Option<(EntityId, GridVec)> {
    match threat_pick(hs, me, Some(CLOSE_THREAT_RANGE)) {
        Some(t) => Some(t),
        None => threat_pick(hs, me, None),
    }
}

/// The target an NPC takes from the hostiles it sees this turn (see
/// `fresh_target_spec`): a close threat always wins over a distant one.
pub fn fresh_target(hostiles: &[Threat], my_pos: GridVec) -> (r: Option<(EntityId, GridVec)>)
    requires
        measurable(hostiles@, my_pos),
    ensures
        r == fresh_target_spec(hostiles@, my_pos),
{
    match pick_threat(hostiles, my_pos, Some(CLOSE_THREAT_RANGE)) {
        Some(t) => Some(t),
        None => pick_threat(hostiles, my_pos, None),
    }
}

/// The hostile within `PROXIMITY_OVERRIDE_RANGE` that forces an NPC into
/// combat, if any (see `pick_threat`).
pub fn proximity_hostile(hostiles: &[Threat], my_pos: GridVec) -> (r: Option<(EntityId, GridVec)>)
    requires
        measurable(hostiles@, my_pos),
    ensures
        r == threat_pick(hostiles@, my_pos, Some(PROXIMITY_OVERRIDE_RANGE)),
{
    pick_threat(hostiles, my_pos, Some(PROXIMITY_OVERRIDE_RANGE))
}

/// Turns from `since` to `now`, zero when `since` is later.
pub open spec fn turns_since(now: u32, since: u32) -> int {
    if now >= since {
        now - since
    } else {
        0
    }
}

/// Where an NPC with no target in sight keeps pursuing its remembered
/// target `t`, or `None` when it drops it: a dead target is dropped; a
/// locked one is kept while it was seen under `TARGET_LOCK_TIMEOUT` turns
/// ago; an unlocked one while its last position is within the NPC's
/// awareness range. A kept target is pursued where it is seen now
/// (`seen_at`), else at its last known position.
pub open spec fn retained_spec(
    t: AiTarget,
    alive: bool,
    seen_at: Option<GridVec>,
    turn: u32,
    me: GridVec,
    awareness: i32,
) -> Option<GridVec> {
    let pos = match seen_at {
        Some(p) => p,
        None => t.last_pos,
    };
    if !alive {
        None
    } else if t.locked && turns_since(turn, t.last_seen) < TARGET_LOCK_TIMEOUT {
        Some(pos)
    } else if !t.locked && chebyshev(me, t.last_pos) <= awareness {
        Some(pos)
    } else {
        None
    }
}

/// Decides whether an NPC that sees no threat keeps pursuing its
/// remembered target (see `retained_spec`); `seen_at` is where the target
/// stands now if the NPC can see that tile.
pub fn retained_target(
    target: &AiTarget,
    alive: bool,
    seen_at: Option<GridVec>,
    turn: u32,
    my_pos: GridVec,
    awareness: i32,
) -> (r: Option<GridVec>)
    requires
        abs_int(target.last_pos.x - my_pos.x) <= i32::MAX,
        abs_int(target.last_pos.y - my_pos.y) <= i32::MAX,
    ensures
        r == retained_spec(*target, alive, seen_at, turn, my_pos, awareness),
{
    let pos = match seen_at {
        Some(p) => p,
        None => target.last_pos,
    };
    let since = turn.saturating_sub(target.last_seen);
    if !alive {
        None
    } else if target.locked && since < TARGET_LOCK_TIMEOUT {
        Some(pos)
    } else if !target.locked && my_pos.chebyshev_distance(target.last_pos) <= awareness {
        Some(pos)
    } else {
        None
    }
}

/// Wrapping multiplication on `i32`.
pub open spec fn wmul32(a: i32, b: i32) -> i32 {
    vstd::wrapping::i32_specs::wrapping_mul(a, b)
}

/// Wrapping addition on `i32`.
pub open spec fn wadd32(a: i32, b: i32) -> i32 {
    vstd::wrapping::i32_specs::wrapping_add(a, b)
}

/// The magnitude of `v` (as an unsigned value: `i32::MIN` gives 2^31).
pub open spec fn uabs(v: i32) -> int {
    if v < 0 {
        -v
    } else {
        v as int
    }
}

/// The magnitude of `v`.
fn unsigned_abs(v: i32) -> (r: u32)
    ensures
        r == uabs(v),
{
    if v >= 0 {
        v as u32
    } else if v == i32::MIN {
        0x8000_0000u32
    } else {
        (-v) as u32
    }
}

/// The positional hash `(x * a) ^ (y * b)`, with wrapping products.
pub open spec fn pos_hash(p: GridVec, a: i32, b: i32) -> i32 {
    wmul32(p.x, a) ^ wmul32(p.y, b)
}

/// `(x * a) ^ (y * b)` for `p`, with wrapping products.
fn hash_pos(p: GridVec, a: i32, b: i32) -> (r: i32)
    ensures
        r == pos_hash(p, a, b),
{
    p.x.wrapping_mul(a) ^ p.y.wrapping_mul(b)
}

/// The turns between an NPC's circular look-arounds at `p`: 20 plus a
/// value in `[0, 20)` hashed from the position.
pub open spec fn look_interval_spec(p: GridVec) -> int {
    LOOK_AROUND_BASE_INTERVAL + uabs(pos_hash(p, 7919, 6271)) % (LOOK_AROUND_DICE_RANGE as int)
}

/// The number of turns between circular look-arounds for an NPC at `p`.
pub fn look_interval(p: GridVec) -> (r: u32)
    ensures
        r == look_interval_spec(p),
        20 <= r < 40,
{
    LOOK_AROUND_BASE_INTERVAL + unsigned_abs(hash_pos(p, 7919, 6271)) % LOOK_AROUND_DICE_RANGE
}

/// Whether an idle or patrolling NPC at `p` starts a circular look-around
/// on `turn`: on every multiple of its interval after turn 0.
pub fn look_around_due(p: GridVec, turn: u32) -> (r: bool)
    ensures
        r == (turn > 0 && turn % (look_interval_spec(p) as u32) == 0),
{
    let interval = look_interval(p);
    turn > 0 && turn % interval == 0
}

/// Whether a patrolling NPC at `p` pauses on `turn`: when the hash of its
/// position, offset by the turn (wrapping), is a multiple of 7.
pub open spec fn pause_spec(p: GridVec, turn: u32) -> bool {
    (wadd32(pos_hash(p, 13, 7), turn as i32) as u32) % 7 == 0
}

/// Whether a patrolling NPC at `p` pauses this turn (see `pause_spec`).
pub fn patrol_pause(p: GridVec, turn: u32) -> (r: bool)
    ensures
        r == pause_spec(p, turn),
{
    let h = hash_pos(p, 13, 7).wrapping_add(turn as i32) as u32;
    h % 7 == 0
}

/// A wandering heading: the direction numbered by the magnitude of
/// `energy + ((x * a) ^ (y * b))` (wrapping), modulo 8.
pub open spec fn roam_heading(energy: i32, p: GridVec, a: i32, b: i32) -> GridVec {
    dir8(uabs(wadd32(energy, pos_hash(p, a, b))) % 8)
}

/// The heading a patrolling NPC prefers, by faction: a lawman beyond
/// `PATROL_RADIUS` of home heads home, otherwise circles it clockwise;
/// wildlife wanders; an outlaw beyond half that radius heads home,
/// otherwise wanders; anyone else wanders. Wandering headings are hashed
/// from the position and the NPC's energy, each faction with its own
/// multipliers.
pub open spec fn patrol_heading_spec(faction: Option<Faction>, me: GridVec, home: GridVec, energy: i32) -> GridVec {
    match faction {
        Some(Faction::Lawmen) => if chebyshev(me, home) > PATROL_RADIUS {
            king_step_spec(sub_spec(home, me))
        } else {
            king_step_spec(sub_spec(add_spec(home, rot45_spec(sub_spec(me, home))), me))
        },
        Some(Faction::Wildlife) => roam_heading(energy, me, 7, 13),
        Some(Faction::Outlaws) => if chebyshev(me, home) > PATROL_RADIUS / 2 {
            king_step_spec(sub_spec(home, me))
        } else {
            roam_heading(energy, me, 3, 11)
        },
        _ => roam_heading(energy, me, 5, 9),
    }
}

/// The direction numbered `i` (modulo 8 it is one of the eight).
fn direction(i: u32) -> (r: GridVec)
    requires
        i < 8,
    ensures
        r == dir8(i as int),
{
    let dirs = GridVec::directions_8();
    dirs[i as usize]
}

/// The heading a patrolling NPC prefers (see `patrol_heading_spec`).
pub fn patrol_heading(faction: Option<Faction>, my_pos: GridVec, home: GridVec, energy: i32) -> (r: GridVec)
    requires
        path_coord_ok(my_pos),
        path_coord_ok(home),
    ensures
        r == patrol_heading_spec(faction, my_pos, home, energy),
{
    match faction {
        Some(Faction::Lawmen) => {
            if my_pos.chebyshev_distance(home) > PATROL_RADIUS {
                (home - my_pos).king_step()
            } else {
                let around = home + (my_pos - home).rotate_45_cw();
                (around - my_pos).king_step()
            }
        },
        Some(Faction::Wildlife) => direction(unsigned_abs(energy.wrapping_add(hash_pos(my_pos, 7, 13))) % 8),
        Some(Faction::Outlaws) => {
            if my_pos.chebyshev_distance(home) > PATROL_RADIUS / 2 {
                (home - my_pos).king_step()
            } else {
                direction(unsigned_abs(energy.wrapping_add(hash_pos(my_pos, 3, 11))) % 8)
            }
        },
        _ => direction(unsigned_abs(energy.wrapping_add(hash_pos(my_pos, 5, 9))) % 8),
    }
}

/// The step scores of the first `k` directions: the best index so far
/// and its score (`i32::MIN` before any). A direction counts when its
/// tile's cost is known; it wins when it beats the best strictly, so ties
/// go to the earlier direction.
pub open spec fn best_scored(scores: Seq<Option<int>>, k: int) -> (Option<int>, int)
    decreases k,
{
    if k <= 0 {
        (None, i32::MIN as int)
    } else {
        let prev = best_scored(scores, k - 1);
        match scores[k - 1] {
            Some(s) => if s > prev.1 {
                (Some(k - 1), s)
            } else {
                prev
            },
            None => prev,
        }
    }
}

/// The patrol score of each direction: ten times its alignment with the
/// heading, less the cost of the tile it leads to; `None` where that tile
/// cannot be entered.
pub open spec fn patrol_scores(heading: GridVec, costs: Seq<Option<i32>>) -> Seq<Option<int>> {
    Seq::new(
        8,
        |i: int|
            match costs[i] {
                Some(c) => Some((dir8(i).x * heading.x + dir8(i).y * heading.y) * 10 - c),
                None => None,
            },
    )
}

/// The influence-weighted patrol step: `None` for a zero heading;
/// otherwise, among the eight directions whose tile can be entered
/// (`costs[i]`, the AI cost of the tile in direction `i`), the one that
/// best trades alignment with the heading against the tile's cost.
pub open spec fn patrol_step_spec(heading: GridVec, costs: Seq<Option<i32>>) -> Option<GridVec> {
    if heading.x == 0 && heading.y == 0 {
        None
    } else {
        match best_scored(patrol_scores(heading, costs), 8).0 {
            Some(i) => Some(dir8(i)),
            None => None,
        }
    }
}

/// Picks the patrol step (see `patrol_step_spec`); `heading` is a king
/// step or zero.
pub fn patrol_step(heading: GridVec, costs: &[Option<i32>; 8]) -> (r: Option<GridVec>)
    requires
        -1 <= heading.x <= 1,
        -1 <= heading.y <= 1,
    ensures
        r == patrol_step_spec(heading, costs@),
{
    if heading.x == 0 && heading.y == 0 {
        return None;
    }
    let ghost scores = patrol_scores(heading, costs@);
    let dirs = GridVec::directions_8();
    let mut best: Option<usize> = None;
    let mut best_score: i64 = i32::MIN as i64;
    let mut i: usize = 0;
    while i < 8
        invariant
            -1 <= heading.x <= 1,
            -1 <= heading.y <= 1,
            !(heading.x == 0 && heading.y == 0),
            i <= 8,
            scores == patrol_scores(heading, costs@),
            forall|k: int| 0 <= k < 8 ==> #[trigger] dirs@[k] == dir8(k),
            best_scored(scores, i as int) == (match best {
                Some(b) => Some(b as int),
                None => None::<int>,
            }, best_score as int),
            best matches Some(b) ==> b < 8,
        decreases 8 - i,
    {
        let d = dirs[i];
        proof {
            assert(-1 <= d.x <= 1 && -1 <= d.y <= 1);
            assert(-1 <= d.x * heading.x <= 1) by (nonlinear_arith)
                requires -1 <= d.x <= 1, -1 <= heading.x <= 1;
            assert(-1 <= d.y * heading.y <= 1) by (nonlinear_arith)
                requires -1 <= d.y <= 1, -1 <= heading.y <= 1;
        }
        match costs[i] {
            Some(c) => {
                let score: i64 = (d.x as i64 * heading.x as i64 + d.y as i64 * heading.y as i64) * 10 - c as i64;
                proof {
                    assert(scores[i as int] == Some(score as int));
                }
                if score > best_score {
                    best_score = score;
                    best = Some(i);
                }
            },
            None => {
                proof {
                    assert(scores[i as int] is None);
                }
            },
        }
        i = i + 1;
    }
    match best {
        Some(b) => Some(dirs[b]),
        None => None,
    }
}

/// The AI costs of the eight tiles around `my_pos`, in direction order.
pub fn neighbor_costs(
    my_pos: GridVec,
    self_entity: EntityId,
    map: &GameMap,
    spatial: &SpatialIndex,
    blockers: &[EntityId],
    blocking: &[Props],
) -> (r: [Option<i32>; 8])
    requires
        map.wf(),
        spatial.wf(),
        path_coord_ok(my_pos),
    ensures
        forall|i: int|
            0 <= i < 8 ==> match #[trigger] r@[i] {
                Some(c) => ai_cost_spec(map, spatial, blockers@, blocking@, self_entity, add_spec(my_pos, dir8(i))) == Some(
                    c as int,
                ),
                None => ai_cost_spec(map, spatial, blockers@, blocking@, self_entity, add_spec(my_pos, dir8(i))) is None,
            },
{
    let ns = my_pos.all_neighbors();
    let mut costs: [Option<i32>; 8] = [None; 8];
    let mut i: usize = 0;
    while i < 8
        invariant
            map.wf(),
            spatial.wf(),
            i <= 8,
            forall|k: int| 0 <= k < 8 ==> #[trigger] ns@[k] == add_spec(my_pos, dir8(k)),
            forall|k: int|
                0 <= k < i ==> match #[trigger] costs@[k] {
                    Some(c) => ai_cost_spec(map, spatial, blockers@, blocking@, self_entity, add_spec(my_pos, dir8(k)))
                        == Some(c as int),
                    None => ai_cost_spec(map, spatial, blockers@, blocking@, self_entity, add_spec(my_pos, dir8(k))) is None,
                },
        decreases 8 - i,
    {
        let c = tile_cost_for_ai(ns[i], self_entity, map, spatial, blockers, blocking);
        costs[i] = c;
        i = i + 1;
    }
    costs
}

/// The burning tiles among the first `k` neighbours of `me`: the sums of
/// their coordinates and their count.
pub open spec fn fire_sum(m: &GameMap, me: GridVec, k: int) -> (int, int, int)
    decreases k,
{
    if k <= 0 {
        (0, 0, 0)
    } else {
        let prev = fire_sum(m, me, k - 1);
        let n = add_spec(me, dir8(k - 1));
        if m.in_bounds(n.x as int, n.y as int) && m.voxel(n.x as int, n.y as int).floor == Some(Floor::Fire) {
            (prev.0 + n.x, prev.1 + n.y, prev.2 + 1)
        } else {
            prev
        }
    }
}

/// The direction, among the first `k`, whose tile can be entered and lies
/// furthest (Chebyshev) from `from`; the earlier one on a tie. Also the
/// distance reached (`i32::MIN` before any).
pub open spec fn furthest_from(me: GridVec, from: GridVec, costs: Seq<Option<i32>>, k: int) -> (Option<int>, int)
    decreases k,
{
    if k <= 0 {
        (None, i32::MIN as int)
    } else {
        let prev = furthest_from(me, from, costs, k - 1);
        let d = chebyshev(add_spec(me, dir8(k - 1)), from);
        if costs[k - 1] is Some && d > prev.1 {
            (Some(k - 1), d)
        } else {
            prev
        }
    }
}

/// How an NPC next to fire gets away from it: `None` when no neighbour
/// burns. Otherwise it heads directly away from the average burning
/// neighbour (`None` when it stands on that average); if that tile cannot
/// be entered (`costs`, the AI costs of the neighbours in direction
/// order), it takes the enterable neighbour furthest from the fire, if
/// any.
pub open spec fn fire_flee_spec(m: &GameMap, me: GridVec, costs: Seq<Option<i32>>) -> Option<GridVec> {
    let (sx, sy, n) = fire_sum(m, me, 8);
    if n == 0 {
        None
    } else {
        let avg = GridVec { x: (sx / n) as i32, y: (sy / n) as i32 };
        let away = king_step_spec(sub_spec(me, avg));
        if away.x == 0 && away.y == 0 {
            None
        } else if costs[dir8_index(away)] is Some {
            Some(away)
        } else {
            match furthest_from(me, avg, costs, 8).0 {
                Some(i) => Some(dir8(i)),
                None => None,
            }
        }
    }
}

/// The index of a king move in direction order.
fn dir_index(d: GridVec) -> (r: usize)
    requires
        is_king_dir(d),
    ensures
        r == dir8_index(d),
        r < 8,
        dir8(r as int) == d,
{
    let dirs = GridVec::directions_8();
    let mut i: usize = 0;
    while i < 8
        invariant
            i <= 8,
            is_king_dir(d),
            forall|k: int| 0 <= k < 8 ==> #[trigger] dirs@[k] == dir8(k),
            forall|k: int| 0 <= k < i ==> dir8(k) != d,
        decreases 8 - i,
    {
        if dirs[i] == d {
            return i;
        }
        i = i + 1;
    }
    proof {
        assert(d == dir8(0) || d == dir8(1) || d == dir8(2) || d == dir8(3) || d == dir8(4) || d == dir8(5) || d == dir8(6)
            || d == dir8(7));
    }
    0
}

/// Decides how an NPC flees adjacent fire (see `fire_flee_spec`); `costs`
/// are the AI costs of its neighbours (see `neighbor_costs`).
pub fn fire_flee_step(map: &GameMap, my_pos: GridVec, costs: &[Option<i32>; 8]) -> (r: Option<GridVec>)
    requires
        map.wf(),
        path_coord_ok(my_pos),
    ensures
        r == fire_flee_spec(map, my_pos, costs@),
{
    let ns = my_pos.all_neighbors();
    let mut sx: i64 = 0;
    let mut sy: i64 = 0;
    let mut n: i64 = 0;
    let mut i: usize = 0;
    while i < 8
        invariant
            map.wf(),
            path_coord_ok(my_pos),
            i <= 8,
            forall|k: int| 0 <= k < 8 ==> #[trigger] ns@[k] == add_spec(my_pos, dir8(k)),
            fire_sum(map, my_pos, i as int) == (sx as int, sy as int, n as int),
            0 <= n <= i,
            0 <= sx,
            0 <= sy,
            n * (my_pos.x - 1) <= sx <= n * (my_pos.x + 1),
            n * (my_pos.y - 1) <= sy <= n * (my_pos.y + 1),
        decreases 8 - i,
    {
        let q = ns[i];
        proof {
            assert(-1 <= dir8(i as int).x <= 1 && -1 <= dir8(i as int).y <= 1);
        }
        match map.get_voxel_at(&q) {
            Some(v) => {
                let fire = match v.floor {
                    Some(Floor::Fire) => true,
                    _ => false,
                };
                if fire {
                    proof {
                        assert((n + 1) * (my_pos.x - 1) == n * (my_pos.x - 1) + (my_pos.x - 1)) by (nonlinear_arith);
                        assert((n + 1) * (my_pos.x + 1) == n * (my_pos.x + 1) + (my_pos.x + 1)) by (nonlinear_arith);
                        assert((n + 1) * (my_pos.y - 1) == n * (my_pos.y - 1) + (my_pos.y - 1)) by (nonlinear_arith);
                        assert((n + 1) * (my_pos.y + 1) == n * (my_pos.y + 1) + (my_pos.y + 1)) by (nonlinear_arith);
                        assert(n * (my_pos.x + 1) <= 8 * 0x100_0001) by (nonlinear_arith)
                            requires 0 <= n <= 8, my_pos.x + 1 <= 0x100_0001;
                        assert(n * (my_pos.y + 1) <= 8 * 0x100_0001) by (nonlinear_arith)
                            requires 0 <= n <= 8, my_pos.y + 1 <= 0x100_0001;
                    }
                    sx = sx + q.x as i64;
                    sy = sy + q.y as i64;
                    n = n + 1;
                }
            },
            None => {},
        }
        i = i + 1;
    }
    if n == 0 {
        return None;
    }
    proof {
        vstd::arithmetic::div_mod::lemma_div_is_ordered((n * (my_pos.x - 1)) as int, sx as int, n as int);
        vstd::arithmetic::div_mod::lemma_div_is_ordered(sx as int, (n * (my_pos.x + 1)) as int, n as int);
        vstd::arithmetic::div_mod::lemma_div_is_ordered((n * (my_pos.y - 1)) as int, sy as int, n as int);
        vstd::arithmetic::div_mod::lemma_div_is_ordered(sy as int, (n * (my_pos.y + 1)) as int, n as int);
        vstd::arithmetic::div_mod::lemma_div_multiples_vanish((my_pos.x - 1) as int, n as int);
        vstd::arithmetic::div_mod::lemma_div_multiples_vanish((my_pos.x + 1) as int, n as int);
        vstd::arithmetic::div_mod::lemma_div_multiples_vanish((my_pos.y - 1) as int, n as int);
        vstd::arithmetic::div_mod::lemma_div_multiples_vanish((my_pos.y + 1) as int, n as int);
        assert(n * (my_pos.x - 1) == (my_pos.x - 1) * n) by (nonlinear_arith);
        assert(n * (my_pos.x + 1) == (my_pos.x + 1) * n) by (nonlinear_arith);
        assert(n * (my_pos.y - 1) == (my_pos.y - 1) * n) by (nonlinear_arith);
        assert(n * (my_pos.y + 1) == (my_pos.y + 1) * n) by (nonlinear_arith);
    }
    let avg = GridVec { x: (sx / n) as i32, y: (sy / n) as i32 };
    let away = (my_pos - avg).king_step();
    if away.x == 0 && away.y == 0 {
        return None;
    }
    let di = dir_index(away);
    if costs[di].is_some() {
        return Some(away);
    }
    let dirs = GridVec::directions_8();
    let mut best: Option<usize> = None;
    let mut best_dist: i32 = i32::MIN;
    let mut k: usize = 0;
    while k < 8
        invariant
            k <= 8,
            path_coord_ok(my_pos),
            my_pos.x - 1 <= avg.x <= my_pos.x + 1,
            my_pos.y - 1 <= avg.y <= my_pos.y + 1,
            forall|j: int| 0 <= j < 8 ==> #[trigger] dirs@[j] == dir8(j),
            furthest_from(my_pos, avg, costs@, k as int) == (match best {
                Some(b) => Some(b as int),
                None => None::<int>,
            }, best_dist as int),
            best matches Some(b) ==> b < 8,
        decreases 8 - k,
    {
        let cand = my_pos + dirs[k];
        if costs[k].is_some() {
            let d = cand.chebyshev_distance(avg);
            if d > best_dist {
                best_dist = d;
                best = Some(k);
            }
        }
        k = k + 1;
    }
    match best {
        Some(b) => Some(dirs[b]),
        None => None,
    }
}

/// A particle that is live and showing: no delay left and life left.
pub open spec fn active(p: Particle) -> bool {
    p.2 == 0 && p.1 > 0
}

/// The Chebyshev distance from `q` to the nearest active particle among
/// the first `k`; `i32::MAX` when there is none.
pub open spec fn nearest_particle(ps: Seq<Particle>, q: GridVec, k: int) -> int
    decreases k,
{
    if k <= 0 {
        i32::MAX as int
    } else {
        let prev = nearest_particle(ps, q, k - 1);
        if active(ps[k - 1]) && chebyshev(q, ps[k - 1].0) < prev {
            chebyshev(q, ps[k - 1].0)
        } else {
            prev
        }
    }
}

/// `a` is lexicographically greater than `b`.
pub open spec fn lex_gt(a: (int, int), b: (int, int)) -> bool {
    a.0 > b.0 || (a.0 == b.0 && a.1 > b.1)
}

/// Among the first `k` directions whose tile can be entered, the best
/// dodge: furthest from the nearest particle, then cheapest; a direction
/// wins only when strictly better, starting from `(0, i32::MAX)`.
pub open spec fn best_dodge(me: GridVec, ps: Seq<Particle>, costs: Seq<Option<i32>>, k: int) -> (Option<int>, (int, int))
    decreases k,
{
    if k <= 0 {
        (None, (0, i32::MAX as int))
    } else {
        let prev = best_dodge(me, ps, costs, k - 1);
        match costs[k - 1] {
            Some(c) => {
                let key = (nearest_particle(ps, add_spec(me, dir8(k - 1)), ps.len() as int), -c);
                if lex_gt(key, prev.1) {
                    (Some(k - 1), key)
                } else {
                    prev
                }
            },
            None => prev,
        }
    }
}

/// Whether, and where, an NPC sidesteps a blast: only when an active
/// particle is within two tiles and its dodge roll (keyed by its entity
/// bits xor `0xD0D6`) is below 0.2; then the best dodge direction (see
/// `best_dodge`), if any.
pub open spec fn dodge_spec(
    tick: u64,
    map_seed: u64,
    entity: EntityId,
    me: GridVec,
    ps: Seq<Particle>,
    costs: Seq<Option<i32>>,
) -> Option<GridVec> {
    let danger = exists|i: int| 0 <= i < ps.len() && active(#[trigger] ps[i]) && chebyshev(me, ps[i].0) <= 2;
    if danger && fraction_below(roll_spec(map_seed, tick, entity.0 ^ 0xD0D6u64), 1, 5) {
        match best_dodge(me, ps, costs, 8).0 {
            Some(i) => Some(dir8(i)),
            None => None,
        }
    } else {
        None
    }
}

/// All particles stand where distances to them can be measured.
pub open spec fn particles_near_grid(ps: Seq<Particle>) -> bool {
    forall|i: int| 0 <= i < ps.len() ==> path_coord_ok(#[trigger] ps[i].0)
}

/// Distance from `q` to the nearest active particle (see
/// `nearest_particle`).
fn nearest_particle_dist(particles: &Vec<Particle>, q: GridVec) -> (r: i32)
    requires
        abs_int(q.x as int) <= 0x100_0001,
        abs_int(q.y as int) <= 0x100_0001,
        particles_near_grid(particles@),
    ensures
        r == nearest_particle(particles@, q, particles@.len() as int),
{
    let mut best: i32 = i32::MAX;
    let mut i: usize = 0;
    while i < particles.len()
        invariant
            i <= particles@.len(),
            abs_int(q.x as int) <= 0x100_0001,
            abs_int(q.y as int) <= 0x100_0001,
            particles_near_grid(particles@),
            best == nearest_particle(particles@, q, i as int),
        decreases particles@.len() - i,
    {
        let p = particles[i];
        proof {
            assert(path_coord_ok(particles@[i as int].0));
        }
        if p.2 == 0 && p.1 > 0 {
            let d = q.chebyshev_distance(p.0);
            if d < best {
                best = d;
            }
        }
        i = i + 1;
    }
    best
}

/// Decides whether and where an NPC sidesteps a blast (see `dodge_spec`);
/// `costs` are the AI costs of its neighbours.
pub fn dodge_step(
    rng: &DynamicRng,
    map_seed: u64,
    entity: EntityId,
    my_pos: GridVec,
    particles: &Vec<Particle>,
    costs: &[Option<i32>; 8],
) -> (r: Option<GridVec>)
    requires
        path_coord_ok(my_pos),
        particles_near_grid(particles@),
    ensures
        r == dodge_spec(rng.tick, map_seed, entity, my_pos, particles@, costs@),
{
    let mut danger = false;
    let mut i: usize = 0;
    while i < particles.len()
        invariant
            i <= particles@.len(),
            path_coord_ok(my_pos),
            particles_near_grid(particles@),
            danger == exists|j: int| 0 <= j < i && active(#[trigger] particles@[j]) && chebyshev(my_pos, particles@[j].0) <= 2,
        decreases particles@.len() - i,
    {
        let p = particles[i];
        proof {
            assert(path_coord_ok(particles@[i as int].0));
        }
        if p.2 == 0 && p.1 > 0 && my_pos.chebyshev_distance(p.0) <= 2 {
            danger = true;
        }
        i = i + 1;
    }
    if !danger {
        return None;
    }
    let roll = rng.roll_bits(map_seed, entity.0 ^ 0xD0D6u64);
    if !((roll as u64) * 5 < 0xFFFF_FFFFu64) {
        return None;
    }
    let dirs = GridVec::directions_8();
    let mut best: Option<usize> = None;
    let mut best_key: (i64, i64) = (0, i32::MAX as i64);
    let mut k: usize = 0;
    while k < 8
        invariant
            k <= 8,
            path_coord_ok(my_pos),
            particles_near_grid(particles@),
            forall|j: int| 0 <= j < 8 ==> #[trigger] dirs@[j] == dir8(j),
            best_dodge(my_pos, particles@, costs@, k as int) == (match best {
                Some(b) => Some(b as int),
                None => None::<int>,
            }, (best_key.0 as int, best_key.1 as int)),
            best matches Some(b) ==> b < 8,
        decreases 8 - k,
    {
        match costs[k] {
            Some(c) => {
                let cand = my_pos + dirs[k];
                proof {
                    assert(-1 <= dir8(k as int).x <= 1 && -1 <= dir8(k as int).y <= 1);
                }
                let key: (i64, i64) = (nearest_particle_dist(particles, cand) as i64, -(c as i64));
                if key.0 > best_key.0 || (key.0 == best_key.0 && key.1 > best_key.1) {
                    best_key = key;
                    best = Some(k);
                }
            },
            None => {},
        }
        k = k + 1;
    }
    match best {
        Some(b) => Some(dirs[b]),
        None => None,
    }
}

/// Where an NPC heads when chasing a target at `target`: more than three
/// tiles away, on turns when the flank hash (of its position, offset by
/// the turn, wrapping) is a multiple of 3, it makes for the tile beside
/// the target a quarter turn clockwise, if that tile is passable;
/// otherwise straight for the target.
pub open spec fn flank_goal_spec(m: &GameMap, blocking: Seq<Props>, me: GridVec, target: GridVec, turn: u32) -> GridVec {
    let h = wadd32(pos_hash(me, 31, 17), turn as i32) as u32;
    if chebyshev(me, target) > 3 && h % 3 == 0 {
        let side = add_spec(target, king_step_spec(rot_cw(sub_spec(target, me))));
        if m.passable_at(blocking, side.x as int, side.y as int) {
            side
        } else {
            target
        }
    } else {
        target
    }
}

/// Where an NPC chasing `target` heads this turn (see `flank_goal_spec`).
pub fn flank_goal(map: &GameMap, blocking: &[Props], my_pos: GridVec, target: GridVec, turn: u32) -> (r: GridVec)
    requires
        map.wf(),
        path_coord_ok(my_pos),
        path_coord_ok(target),
    ensures
        r == flank_goal_spec(map, blocking@, my_pos, target, turn),
{
    let h = hash_pos(my_pos, 31, 17).wrapping_add(turn as i32) as u32;
    if my_pos.chebyshev_distance(target) > 3 && h % 3 == 0 {
        let side = target + (target - my_pos).rotate_90_cw().king_step();
        if map.is_passable(&side, blocking) {
            side
        } else {
            target
        }
    } else {
        target
    }
}

/// Wrapping multiplication on `u64`.
pub open spec fn wmul64(a: u64, b: u64) -> u64 {
    vstd::wrapping::u64_specs::wrapping_mul(a, b)
}

/// The scatter of a snap shot: two offsets in `[-1, 1]` from a hash of
/// the shooter's entity bits and the turn.
pub open spec fn snap_spread_spec(entity: EntityId, turn: u32) -> (int, int) {
    let h = wmul64(entity.0 ^ (turn as u64), HASH_LCG);
    ((h % 3) as int - 1, ((h >> 16u64) % 3) as int - 1)
}

/// The aim offset of an NPC's shot at `aim` from `me`, `dist` tiles from
/// its target: a snap shot is scattered by one tile each way (see
/// `snap_spread_spec`); suppressing fire goes straight along the king
/// step towards the aim point, out to at least `AI_RANGED_ATTACK_RANGE`;
/// otherwise the offset to the aim point.
pub open spec fn aim_offset_spec(style: Option<AimingStyle>, entity: EntityId, turn: u32, me: GridVec, aim: GridVec, dist: int) -> (
    int,
    int,
) {
    let (dx, dy) = (aim.x - me.x, aim.y - me.y);
    match style {
        Some(AimingStyle::SnapShot) => {
            let (sx, sy) = snap_spread_spec(entity, turn);
            (dx + sx, dy + sy)
        },
        Some(AimingStyle::Suppression) => {
            let d = king_step_spec(sub_spec(aim, me));
            let range = if dist > AI_RANGED_ATTACK_RANGE { dist } else { AI_RANGED_ATTACK_RANGE as int };
            (d.x * range, d.y * range)
        },
        _ => (dx, dy),
    }
}

/// The aim offset of an NPC's shot (see `aim_offset_spec`).
pub fn aim_offset(
    style: Option<AimingStyle>,
    entity: EntityId,
    turn: u32,
    my_pos: GridVec,
    aim: GridVec,
    dist: i32,
) -> (r: (i32, i32))
    requires
        path_coord_ok(my_pos),
        path_coord_ok(aim),
        0 <= dist <= 0x100_0000,
    ensures
        (r.0 as int, r.1 as int) == aim_offset_spec(style, entity, turn, my_pos, aim, dist as int),
{
    let dx = aim.x - my_pos.x;
    let dy = aim.y - my_pos.y;
    match style {
        Some(AimingStyle::SnapShot) => {
            let h = (entity.0 ^ (turn as u64)).wrapping_mul(HASH_LCG);
            let sx = (h % 3) as i32 - 1;
            let sy = ((h >> 16u64) % 3) as i32 - 1;
            (dx + sx, dy + sy)
        },
        Some(AimingStyle::Suppression) => {
            let d = (aim - my_pos).king_step();
            let range = if dist > AI_RANGED_ATTACK_RANGE { dist } else { AI_RANGED_ATTACK_RANGE };
            proof {
                assert(-0x100_0000 <= d.x * range <= 0x100_0000) by (nonlinear_arith)
                    requires -1 <= d.x <= 1, 0 <= range <= 0x100_0000;
                assert(-0x100_0000 <= d.y * range <= 0x100_0000) by (nonlinear_arith)
                    requires -1 <= d.y <= 1, 0 <= range <= 0x100_0000;
            }
            (d.x * range, d.y * range)
        },
        _ => (dx, dy),
    }
}

/// Among the first `k` alerts within `ALLY_SHARE_RANGE` of `me`, the
/// nearest (Chebyshev); the earlier one on a tie.
pub open spec fn nearest_alert_upto(alerts: Seq<GridVec>, me: GridVec, k: int) -> Option<int>
    decreases k,
{
    if k <= 0 {
        None
    } else {
        let prev = nearest_alert_upto(alerts, me, k - 1);
        let d = chebyshev(me, alerts[k - 1]);
        if d <= ALLY_SHARE_RANGE && (prev is None || d < chebyshev(me, alerts[prev.unwrap()])) {
            Some(k - 1)
        } else {
            prev
        }
    }
}

/// The nearest threat position an ally has reported within
/// `ALLY_SHARE_RANGE`, if any (see `nearest_alert_upto`).
pub fn nearest_alert(alerts: &[GridVec], my_pos: GridVec) -> (r: Option<GridVec>)
    requires
        path_coord_ok(my_pos),
        forall|i: int| 0 <= i < alerts@.len() ==> path_coord_ok(#[trigger] alerts@[i]),
    ensures
        r == (match nearest_alert_upto(alerts@, my_pos, alerts@.len() as int) {
            Some(i) => Some(alerts@[i]),
            None => None,
        }),
{
    let mut best: Option<usize> = None;
    let mut best_d: i32 = 0;
    let mut i: usize = 0;
    while i < alerts.len()
        invariant
            i <= alerts@.len(),
            path_coord_ok(my_pos),
            forall|j: int| 0 <= j < alerts@.len() ==> path_coord_ok(#[trigger] alerts@[j]),
            nearest_alert_upto(alerts@, my_pos, i as int) == (match best {
                Some(b) => Some(b as int),
                None => None::<int>,
            }),
            best matches Some(b) ==> b < i && best_d == chebyshev(my_pos, alerts@[b as int]),
        decreases alerts@.len() - i,
    {
        let a = alerts[i];
        proof {
            assert(path_coord_ok(alerts@[i as int]));
        }
        let d = my_pos.chebyshev_distance(a);
        if d <= ALLY_SHARE_RANGE && (best.is_none() || d < best_d) {
            best = Some(i);
            best_d = d;
        }
        i = i + 1;
    }
    match best {
        Some(b) => Some(alerts[b]),
        None => None,
    }
}

/// Takes up an ally's alert: an NPC with nothing in memory, or whose
/// memory is `MEMORY_DURATION` turns old or more, remembers `alert` as
/// seen on `turn`; otherwise its memory is kept.
pub fn adopt_alert(mem: &mut AiMemory, alert: GridVec, turn: u32)
    ensures
        if old(mem).last_known_pos is None || turns_since(turn, old(mem).last_seen_turn) >= MEMORY_DURATION {
            *final(mem) == (AiMemory { last_known_pos: Some(alert), last_seen_turn: turn, ..*old(mem) })
        } else {
            *final(mem) == *old(mem)
        },
{
    if mem.last_known_pos.is_none() || turn.saturating_sub(mem.last_seen_turn) >= MEMORY_DURATION {
        mem.last_known_pos = Some(alert);
        mem.last_seen_turn = turn;
    }
}

/// Both factions are known and differ: every faction fights every other.
pub open spec fn opposed(a: Option<Faction>, b: Option<Faction>) -> bool {
    a is Some && b is Some && a.unwrap() != b.unwrap()
}

/// An entity other than `me` that belongs to a faction hostile to
/// `my_faction` stands on `p` (never, for an NPC without a faction).
pub open spec fn hostile_on(
    spatial: &SpatialIndex,
    factions: Seq<(EntityId, Faction)>,
    me: EntityId,
    my_faction: Option<Faction>,
    p: GridVec,
) -> bool {
    exists|k: int|
        0 <= k < spatial.at(p).len() && spatial.at(p)[k] != me && opposed(my_faction, #[trigger] faction_of(factions, spatial.at(p)[k]))
}

/// How many of the first `k` neighbours of `me` hold an enemy: a hostile
/// NPC or the player.
pub open spec fn enemies_around(
    spatial: &SpatialIndex,
    factions: Seq<(EntityId, Faction)>,
    me: EntityId,
    my_faction: Option<Faction>,
    pos: GridVec,
    player: Option<GridVec>,
    k: int,
) -> int
    decreases k,
{
    if k <= 0 {
        0
    } else {
        let n = add_spec(pos, dir8(k - 1));
        enemies_around(spatial, factions, me, my_faction, pos, player, k - 1) + if hostile_on(
            spatial,
            factions,
            me,
            my_faction,
            n,
        ) || player == Some(n) {
            1int
        } else {
            0int
        }
    }
}

/// Whether an entity of a faction hostile to `my_faction`, other than
/// `me`, stands on `p`.
fn hostile_standing_on(
    spatial: &SpatialIndex,
    factions: &[(EntityId, Faction)],
    me: EntityId,
    my_faction: Option<Faction>,
    p: GridVec,
) -> (r: bool)
    requires
        spatial.wf(),
        entities_unique(factions@),
    ensures
        r == hostile_on(spatial, factions@, me, my_faction, p),
{
    let here = spatial.entities_at(&p);
    let mut j: usize = 0;
    while j < here.len()
        invariant
            here@ == spatial.at(p),
            entities_unique(factions@),
            j <= here@.len(),
            forall|q: int|
                0 <= q < j ==> !(here@[q] != me && opposed(my_faction, #[trigger] faction_of(factions@, here@[q]))),
        decreases here@.len() - j,
    {
        let e = here[j];
        if e != me {
            let fe = crate::influence::lookup_faction(factions, e);
            match (fe, my_faction) {
                (Some(g), Some(f)) => {
                    if f != g {
                        proof {
                            assert(faction_of(factions@, here@[j as int]) == Some(g));
                        }
                        return true;
                    }
                },
                _ => {},
            }
        }
        j = j + 1;
    }
    false
}

/// Counts the neighbours of `my_pos` that hold an enemy (see
/// `enemies_around`): an NPC hostile to `my_faction` (factions as listed
/// in `factions`), or the player (at `player`, when alive).
pub fn adjacent_enemy_count(
    my_pos: GridVec,
    self_entity: EntityId,
    my_faction: Option<Faction>,
    spatial: &SpatialIndex,
    factions: &[(EntityId, Faction)],
    player: Option<GridVec>,
) -> (r: u32)
    requires
        spatial.wf(),
        entities_unique(factions@),
        path_coord_ok(my_pos),
    ensures
        r == enemies_around(spatial, factions@, self_entity, my_faction, my_pos, player, 8),
        r <= 8,
{
    let ns = my_pos.all_neighbors();
    let mut count: u32 = 0;
    let mut i: usize = 0;
    while i < 8
        invariant
            spatial.wf(),
            entities_unique(factions@),
            i <= 8,
            forall|k: int| 0 <= k < 8 ==> #[trigger] ns@[k] == add_spec(my_pos, dir8(k)),
            count == enemies_around(spatial, factions@, self_entity, my_faction, my_pos, player, i as int),
            count <= i,
        decreases 8 - i,
    {
        let n = ns[i];
        let enemy = hostile_standing_on(spatial, factions, self_entity, my_faction, n);
        let is_player = match player {
            Some(p) => p == n,
            None => false,
        };
        if enemy || is_player {
            count = count + 1;
        }
        i = i + 1;
    }
    count
}

} // verus!
