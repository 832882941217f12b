//! Where the NPCs of a new world are placed: two rival groups on either
//! bank of the river by the bridge, townsfolk and deputies around their
//! faction's anchor buildings, and a few stragglers scattered over the
//! map.
use vstd::prelude::*;

use crate::components::Faction;
use crate::gamemap::{GameMap, Voxel};
use crate::graphics::{Floor, Props};
use crate::grid_vec::{abs_int, dist_sq, CoordinateUnit, GridVec};
use crate::noise::{fraction_above, fraction_scaled, noise2d_spec, noise_above, noise_scaled, NoiseSeed};

verus! {

/// One NPC to spawn: the index of its monster template, its tile, and the
/// direction it starts out looking in, if any.
#[derive(Clone, Copy, Debug, PartialEq, Eq, Structural)]
pub struct MonsterSpawn {
    pub template: usize,
    pub pos: GridVec,
    pub look: Option<GridVec>,
}

/// No NPC spawns within this distance (squared) of the player's spawn.
pub const MIN_SPAWN_DIST_SQ: i32 = 100;
/// How far (in each axis) from the bridge the river-bank groups spread.
pub const BANK_REACH: i32 = 15;
/// How far (in each axis) from an anchor building its faction spreads.
pub const ANCHOR_RADIUS: i32 = 8;
/// How many scatter positions are tried per straggler group.
pub const SCATTER_ATTEMPTS: usize = 200;

/// A rectangular area scanned for spawn tiles: centre, the column offsets
/// `dx_lo..=dx_hi` and row offsets `-reach..=reach`, the templates used in
/// turn, how many NPCs to place, the seed of the thinning noise, whether
/// only open ground counts, and the look direction given to each NPC.
#[derive(Clone, Copy)]
pub struct AreaScan {
    pub cx: i32,
    pub cy: i32,
    pub dx_lo: i32,
    pub dx_hi: i32,
    pub reach: i32,
    pub first_template: usize,
    pub second_template: usize,
    pub target: i32,
    pub noise_seed: NoiseSeed,
    pub ground_only: bool,
    pub look: Option<GridVec>,
}

/// Floors an NPC of a river-bank group may stand on.
pub open spec fn open_ground(f: Option<Floor>) -> bool {
    f == Some(Floor::Beach) || f == Some(Floor::Sand) || f == Some(Floor::Dirt) || f == Some(Floor::Gravel) || f
        == Some(Floor::Grass) || f == Some(Floor::Sidewalk) || f == Some(Floor::Bridge)
}

/// Whether an NPC of scan `a` may spawn at `(x, y)`: at least 10 tiles
/// from the player's spawn, spawnable, on open ground where the scan asks
/// for it, and where the thinning noise is at most 0.4.
pub open spec fn scan_accepts(m: &GameMap, blocking: Seq<Props>, spawn: GridVec, a: AreaScan, x: int, y: int) -> bool {
    &&& dist_sq(GridVec { x: x as i32, y: y as i32 }, spawn) >= MIN_SPAWN_DIST_SQ
    &&& m.spawnable_at(blocking, x, y)
    &&& (a.ground_only ==> open_ground(m.voxel(x, y).floor))
    &&& !fraction_above(noise2d_spec(x as i32, y as i32, a.noise_seed), 2, 5)
}

/// The template of the `n`-th NPC of scan `a`: the two templates in turn.
pub open spec fn scan_template(a: AreaScan, n: int) -> usize {
    if n % 2 == 0 { a.first_template } else { a.second_template }
}

/// The spawns of scan `a` after row `dy`, columns `dx..=dx_hi`, given the
/// spawns so far; nothing more once the target is reached.
pub open spec fn scan_row(m: &GameMap, blocking: Seq<Props>, spawn: GridVec, a: AreaScan, dy: int, dx: int, acc: Seq<MonsterSpawn>) -> Seq<MonsterSpawn>
    decreases a.dx_hi + 1 - dx,
{
    if dx > a.dx_hi || acc.len() >= a.target {
        acc
    } else {
        let x = a.cx + dx;
        let y = a.cy + dy;
        let next = if scan_accepts(m, blocking, spawn, a, x, y) {
            acc.push(MonsterSpawn { template: scan_template(a, acc.len() as int), pos: GridVec { x: x as i32, y: y as i32 }, look: a.look })
        } else {
            acc
        };
        scan_row(m, blocking, spawn, a, dy, dx + 1, next)
    }
}

/// The spawns of scan `a` after rows `dy..=reach`, row by row.
pub open spec fn scan_rows(m: &GameMap, blocking: Seq<Props>, spawn: GridVec, a: AreaScan, dy: int, acc: Seq<MonsterSpawn>) -> Seq<MonsterSpawn>
    decreases a.reach + 1 - dy,
{
    if dy > a.reach {
        acc
    } else {
        scan_rows(m, blocking, spawn, a, dy + 1, scan_row(m, blocking, spawn, a, dy, a.dx_lo as int, acc))
    }
}

/// The spawns of scan `a` alone.
pub open spec fn area_spawns(m: &GameMap, blocking: Seq<Props>, spawn: GridVec, a: AreaScan) -> Seq<MonsterSpawn> {
    scan_rows(m, blocking, spawn, a, -(a.reach as int), Seq::empty())
}

/// Whether the scan's tiles stay within machine integers.
pub open spec fn scan_fits(a: AreaScan) -> bool {
    &&& 0 <= a.reach <= 1000
    &&& -1000 <= a.dx_lo
    &&& a.dx_hi <= 1000
    &&& i32::MIN + 1001 <= a.cx <= i32::MAX - 1001
    &&& i32::MIN + 1001 <= a.cy <= i32::MAX - 1001
}

/// Whether `pos` lies within `MIN_SPAWN_DIST_SQ` of `spawn`.
fn near_spawn(pos: GridVec, spawn: GridVec) -> (r: bool)
    ensures
        r == (dist_sq(pos, spawn) < MIN_SPAWN_DIST_SQ),
{
    let dx = pos.x as i128 - spawn.x as i128;
    let dy = pos.y as i128 - spawn.y as i128;
    proof {
        assert(dx * dx <= 0x1_0000_0000 * 0x1_0000_0000) by (nonlinear_arith)
            requires -0x1_0000_0000 <= dx <= 0x1_0000_0000;
        assert(dy * dy <= 0x1_0000_0000 * 0x1_0000_0000) by (nonlinear_arith)
            requires -0x1_0000_0000 <= dy <= 0x1_0000_0000;
        assert(dx * dx >= 0) by (nonlinear_arith);
        assert(dy * dy >= 0) by (nonlinear_arith);
    }
    dx * dx + dy * dy < 100
}

/// Whether the floor at an on-map tile is open ground.
fn open_ground_at(m: &GameMap, x: i32, y: i32) -> (r: bool)
    requires
        m.wf(),
        m.in_bounds(x as int, y as int),
    ensures
        r == open_ground(m.voxel(x as int, y as int).floor),
{
    let v: Voxel = m.voxels[y as usize][x as usize];
    match v.floor {
        Some(Floor::Beach) | Some(Floor::Sand) | Some(Floor::Dirt) | Some(Floor::Gravel) | Some(Floor::Grass)
        | Some(Floor::Sidewalk) | Some(Floor::Bridge) => true,
        _ => false,
    }
}

/// Scans area `a` row by row (rows `-reach..=reach`, columns
/// `dx_lo..=dx_hi`) and appends an NPC on each accepted tile until the
/// target count is reached.
pub fn scan_area(m: &GameMap, blocking: &[Props], spawn: GridVec, a: AreaScan, out: &mut Vec<MonsterSpawn>)
    requires
        m.wf(),
        scan_fits(a),
    ensures
        final(out)@ == old(out)@ + area_spawns(m, blocking@, spawn, a),
{
    let ghost base = out@;
    let mut found: Vec<MonsterSpawn> = Vec::new();
    let mut dy: i32 = -a.reach;
    while dy <= a.reach
        invariant
            m.wf(),
            scan_fits(a),
            -a.reach <= dy <= a.reach + 1,
            area_spawns(m, blocking@, spawn, a) == scan_rows(m, blocking@, spawn, a, dy as int, found@),
        decreases a.reach + 1 - dy,
    {
        let ghost row_start = found@;
        let mut dx: i32 = a.dx_lo;
        while dx <= a.dx_hi
            invariant
                m.wf(),
                scan_fits(a),
                -a.reach <= dy <= a.reach,
                a.dx_lo <= dx <= if a.dx_hi + 1 > a.dx_lo { a.dx_hi + 1 } else { a.dx_lo as int },
                scan_row(m, blocking@, spawn, a, dy as int, a.dx_lo as int, row_start) == scan_row(
                    m,
                    blocking@,
                    spawn,
                    a,
                    dy as int,
                    dx as int,
                    found@,
                ),
            ensures
                scan_row(m, blocking@, spawn, a, dy as int, a.dx_lo as int, row_start) == found@,
            decreases a.dx_hi + 1 - dx,
        {
            if a.target <= 0 || found.len() >= a.target as usize {
                break;
            }
            let x = a.cx + dx;
            let y = a.cy + dy;
            let pos = GridVec::new(x, y);
            let accept = !near_spawn(pos, spawn) && m.is_spawnable(&pos, blocking) && (!a.ground_only
                || open_ground_at(m, x, y)) && !noise_above(x, y, a.noise_seed, 2, 5);
            proof {
                assert(pos == GridVec { x: x as i32, y: y as i32 });
            }
            assert(accept == scan_accepts(m, blocking@, spawn, a, x as int, y as int));
            if accept {
                let template = if found.len() % 2 == 0 {
                    a.first_template
                } else {
                    a.second_template
                };
                found.push(MonsterSpawn { template, pos, look: a.look });
            }
            dx = dx + 1;
        }
        dy = dy + 1;
    }
    out.append(&mut found);
}


/// Whether `p` is the bridge tile that `GameMap::find_bridge_center`
/// returns: a bridge tile whose column is nearest the map's middle column,
/// the first such in row-major order.
pub open spec fn is_bridge_center(m: &GameMap, p: GridVec) -> bool {
    &&& m.in_bounds(p.x as int, p.y as int)
    &&& m.bridge_at(p.x as int, p.y as int)
    &&& forall|a: int, c: int|
        m.in_bounds(a, c) && #[trigger] m.bridge_at(a, c) ==> abs_int(p.x - m.width / 2) <= abs_int(a - m.width / 2)
            && ((c < p.y || (c == p.y && a < p.x)) ==> abs_int(p.x - m.width / 2) < abs_int(a - m.width / 2))
}

/// The bridge centre of the map, if it has a bridge.
pub open spec fn bridge_center(m: &GameMap) -> Option<GridVec> {
    if exists|p: GridVec| is_bridge_center(m, p) {
        Some(choose|p: GridVec| is_bridge_center(m, p))
    } else {
        None
    }
}

/// At most one tile is the bridge centre.
proof fn lemma_bridge_center_unique(m: &GameMap, p: GridVec, q: GridVec)
    requires
        is_bridge_center(m, p),
        is_bridge_center(m, q),
    ensures
        p == q,
{
    assert(m.bridge_at(q.x as int, q.y as int));
    assert(m.bridge_at(p.x as int, p.y as int));
}

/// The point the river-bank groups gather around: the bridge centre, or
/// the middle of the map when there is no bridge.
pub open spec fn gathering_point(m: &GameMap) -> GridVec {
    match bridge_center(m) {
        Some(p) => p,
        None => GridVec { x: (m.width / 2) as i32, y: (m.height / 2) as i32 },
    }
}

/// The seed of the group placement.
pub open spec fn group_seed(seed: u64, k: u64) -> u64 {
    vstd::wrapping::u64_specs::wrapping_add(vstd::wrapping::u64_specs::wrapping_add(seed, 54321), k)
}

/// The left-bank group (templates 2 and 3, looking right) and the
/// right-bank group (template 0, looking left): 8 to 11 each (by noise at
/// the bridge), within 15 tiles of the river's middle column at the
/// bridge's row, on open ground.
pub open spec fn bank_scan(m: &GameMap, seed: u64, left: bool) -> AreaScan {
    let g = gathering_point(m);
    let river_cx = (m.width / 2) as i32;
    if left {
        AreaScan {
            cx: river_cx,
            cy: g.y,
            dx_lo: (-BANK_REACH) as i32,
            dx_hi: (-1) as i32,
            reach: BANK_REACH,
            first_template: 2,
            second_template: 3,
            target: (8 + fraction_scaled(noise2d_spec(g.x, g.y, group_seed(seed, 1111)), 4)) as i32,
            noise_seed: group_seed(seed, 22222),
            ground_only: true,
            look: Some(GridVec { x: 1, y: 0 }),
        }
    } else {
        AreaScan {
            cx: river_cx,
            cy: g.y,
            dx_lo: 1,
            dx_hi: BANK_REACH,
            reach: BANK_REACH,
            first_template: 0,
            second_template: 0,
            target: (8 + fraction_scaled(noise2d_spec((g.x + 1) as i32, g.y, group_seed(seed, 2222)), 4)) as i32,
            noise_seed: group_seed(seed, 33333),
            ground_only: true,
            look: Some(GridVec { x: (-1) as i32, y: 0 }),
        }
    }
}

/// The townsfolk (template 1; 3 to 6 by noise) around a civilian anchor,
/// or the deputies (templates 4 and 5 in turn; 2 to 4 by noise) around a
/// police anchor, within 8 tiles.
pub open spec fn anchor_scan(p: GridVec, seed: u64, deputies: bool) -> AreaScan {
    if deputies {
        AreaScan {
            cx: p.x,
            cy: p.y,
            dx_lo: (-ANCHOR_RADIUS) as i32,
            dx_hi: ANCHOR_RADIUS,
            reach: ANCHOR_RADIUS,
            first_template: 4,
            second_template: 5,
            target: (2 + fraction_scaled(noise2d_spec(p.x, p.y, group_seed(seed, 66666)), 3)) as i32,
            noise_seed: group_seed(seed, 77777),
            ground_only: false,
            look: None,
        }
    } else {
        AreaScan {
            cx: p.x,
            cy: p.y,
            dx_lo: (-ANCHOR_RADIUS) as i32,
            dx_hi: ANCHOR_RADIUS,
            reach: ANCHOR_RADIUS,
            first_template: 1,
            second_template: 1,
            target: (3 + fraction_scaled(noise2d_spec(p.x, p.y, group_seed(seed, 44444)), 4)) as i32,
            noise_seed: group_seed(seed, 55555),
            ground_only: false,
            look: None,
        }
    }
}

/// The spawns around the anchors `i..` whose faction is `f`, in order.
pub open spec fn anchor_spawns(
    m: &GameMap,
    blocking: Seq<Props>,
    spawn: GridVec,
    seed: u64,
    f: Faction,
    deputies: bool,
    i: int,
) -> Seq<MonsterSpawn>
    decreases m.faction_anchors@.len() - i,
{
    if i < 0 || i >= m.faction_anchors@.len() {
        Seq::empty()
    } else {
        let (p, g, _) = m.faction_anchors@[i];
        let here = if g == f {
            area_spawns(m, blocking, spawn, anchor_scan(p, seed, deputies))
        } else {
            Seq::empty()
        };
        here + anchor_spawns(m, blocking, spawn, seed, f, deputies, i + 1)
    }
}

/// The straggler groups: (template, noise offset).
pub open spec fn straggler(g: int) -> (usize, i32) {
    if g == 0 { (2, 1) }
    else if g == 1 { (3, 2) }
    else if g == 2 { (0, 3) }
    else if g == 3 { (1, 4) }
    else { (4, 5) }
}

/// `v` clamped to `[lo, hi]`.
pub open spec fn clamp_to(v: int, lo: int, hi: int) -> int {
    if v < lo { lo } else if v > hi { hi } else { v }
}

/// The stragglers of one group: each candidate spot `spots[i..]`, pulled
/// one tile inside the map edge, is taken when it is at least 10 tiles
/// from the player's spawn and spawnable, until `max` are placed.
pub open spec fn scatter_spawns(
    m: &GameMap,
    blocking: Seq<Props>,
    spawn: GridVec,
    spots: Seq<GridVec>,
    template: usize,
    max: int,
    i: int,
    acc: Seq<MonsterSpawn>,
) -> Seq<MonsterSpawn>
    decreases spots.len() - i,
{
    if i < 0 || i >= spots.len() || acc.len() >= max {
        acc
    } else {
        let x = clamp_to(spots[i].x as int, 1, m.width - 2);
        let y = clamp_to(spots[i].y as int, 1, m.height - 2);
        let pos = GridVec { x: x as i32, y: y as i32 };
        let next = if dist_sq(pos, spawn) >= MIN_SPAWN_DIST_SQ && m.spawnable_at(blocking, x, y) {
            acc.push(MonsterSpawn { template, pos, look: None })
        } else {
            acc
        };
        scatter_spawns(m, blocking, spawn, spots, template, max, i + 1, next)
    }
}

/// How many stragglers group `g` places at most: 1 or 2, by noise.
pub open spec fn straggler_max(seed: u64, g: int) -> int {
    1 + fraction_scaled(noise2d_spec(0, straggler(g).1, group_seed(seed, 99999)), 2)
}

/// The stragglers of groups `g..5`, group by group.
pub open spec fn all_stragglers(
    m: &GameMap,
    blocking: Seq<Props>,
    spawn: GridVec,
    seed: u64,
    spots: Seq<Seq<GridVec>>,
    g: int,
) -> Seq<MonsterSpawn>
    decreases 5 - g,
{
    if g < 0 || g >= 5 {
        Seq::empty()
    } else {
        scatter_spawns(m, blocking, spawn, spots[g], straggler(g).0, straggler_max(seed, g), 0, Seq::empty())
            + all_stragglers(m, blocking, spawn, seed, spots, g + 1)
    }
}

/// Every NPC of a new world, in order: the left-bank group, the
/// right-bank group, the townsfolk around each civilian anchor, the
/// deputies around each police anchor, and the stragglers.
pub open spec fn spawn_plan(m: &GameMap, seed: u64, blocking: Seq<Props>, spawn: GridVec, spots: Seq<Seq<GridVec>>) -> Seq<MonsterSpawn> {
    area_spawns(m, blocking, spawn, bank_scan(m, seed, true)) + area_spawns(m, blocking, spawn, bank_scan(m, seed, false))
        + anchor_spawns(m, blocking, spawn, seed, Faction::Civilians, false, 0) + anchor_spawns(
        m,
        blocking,
        spawn,
        seed,
        Faction::Police,
        true,
        0,
    ) + all_stragglers(m, blocking, spawn, seed, spots, 0)
}

/// Whether every anchor's scan stays within machine integers.
pub open spec fn anchors_fit(m: &GameMap) -> bool {
    forall|i: int|
        0 <= i < m.faction_anchors@.len() ==> {
            let p = (#[trigger] m.faction_anchors@[i]).0;
            i32::MIN + 1001 <= p.x <= i32::MAX - 1001 && i32::MIN + 1001 <= p.y <= i32::MAX - 1001
        }
}

/// Appends the spawns around the anchors of faction `f`.
fn spawn_at_anchors(m: &GameMap, blocking: &[Props], spawn: GridVec, seed: NoiseSeed, f: Faction, deputies: bool, out: &mut Vec<MonsterSpawn>)
    requires
        m.wf(),
        anchors_fit(m),
    ensures
        final(out)@ == old(out)@ + anchor_spawns(m, blocking@, spawn, seed, f, deputies, 0),
{
    let gs = seed.wrapping_add(54321);
    let mut i: usize = 0;
    while i < m.faction_anchors.len()
        invariant
            m.wf(),
            anchors_fit(m),
            i <= m.faction_anchors@.len(),
            gs == vstd::wrapping::u64_specs::wrapping_add(seed, 54321),
            old(out)@ + anchor_spawns(m, blocking@, spawn, seed, f, deputies, 0) == out@ + anchor_spawns(
                m,
                blocking@,
                spawn,
                seed,
                f,
                deputies,
                i as int,
            ),
        decreases m.faction_anchors@.len() - i,
    {
        let p = m.faction_anchors[i].0;
        let g = m.faction_anchors[i].1;
        let ghost before = out@;
        let ghost rest = anchor_spawns(m, blocking@, spawn, seed, f, deputies, i + 1);
        proof {
            assert(p == m.faction_anchors@[i as int].0);
        }
        if g == f {
            let a = if deputies {
                AreaScan {
                    cx: p.x,
                    cy: p.y,
                    dx_lo: -ANCHOR_RADIUS,
                    dx_hi: ANCHOR_RADIUS,
                    reach: ANCHOR_RADIUS,
                    first_template: 4,
                    second_template: 5,
                    target: 2 + noise_scaled(p.x, p.y, gs.wrapping_add(66666), 3),
                    noise_seed: gs.wrapping_add(77777),
                    ground_only: false,
                    look: None,
                }
            } else {
                AreaScan {
                    cx: p.x,
                    cy: p.y,
                    dx_lo: -ANCHOR_RADIUS,
                    dx_hi: ANCHOR_RADIUS,
                    reach: ANCHOR_RADIUS,
                    first_template: 1,
                    second_template: 1,
                    target: 3 + noise_scaled(p.x, p.y, gs.wrapping_add(44444), 4),
                    noise_seed: gs.wrapping_add(55555),
                    ground_only: false,
                    look: None,
                }
            };
            assert(a == anchor_scan(p, seed, deputies));
            scan_area(m, blocking, spawn, a, out);
            proof {
                assert(before + (area_spawns(m, blocking@, spawn, a) + rest) =~= out@ + rest);
            }
        } else {
            proof {
                assert(before + (Seq::<MonsterSpawn>::empty() + rest) =~= out@ + rest);
            }
        }
        i = i + 1;
    }
    proof {
        assert(out@ + anchor_spawns(m, blocking@, spawn, seed, f, deputies, i as int) =~= out@);
    }
}

/// Appends the stragglers of group `g`, trying the spots in order.
fn spawn_stragglers(m: &GameMap, blocking: &[Props], spawn: GridVec, seed: NoiseSeed, spots: &Vec<GridVec>, g: usize, out: &mut Vec<MonsterSpawn>)
    requires
        m.wf(),
        3 <= m.width,
        3 <= m.height,
        g < 5,
    ensures
        final(out)@ == old(out)@ + scatter_spawns(m, blocking@, spawn, spots@, straggler(g as int).0, straggler_max(seed, g as int), 0, Seq::empty()),
{
    let (template, offset): (usize, i32) = if g == 0 {
        (2, 1)
    } else if g == 1 {
        (3, 2)
    } else if g == 2 {
        (0, 3)
    } else if g == 3 {
        (1, 4)
    } else {
        (4, 5)
    };
    let gs = seed.wrapping_add(54321);
    let max_place = 1 + noise_scaled(0, offset, gs.wrapping_add(99999), 2);
    let mut found: Vec<MonsterSpawn> = Vec::new();
    let mut i: usize = 0;
    while i < spots.len()
        invariant
            m.wf(),
            3 <= m.width,
            3 <= m.height,
            1 <= max_place <= 3,
            i <= spots@.len(),
            scatter_spawns(m, blocking@, spawn, spots@, template, max_place as int, 0, Seq::empty()) == scatter_spawns(
                m,
                blocking@,
                spawn,
                spots@,
                template,
                max_place as int,
                i as int,
                found@,
            ),
        ensures
            scatter_spawns(m, blocking@, spawn, spots@, template, max_place as int, 0, Seq::empty()) == found@,
        decreases spots@.len() - i,
    {
        if found.len() >= max_place as usize {
            break;
        }
        let s = spots[i];
        let x = if s.x < 1 { 1 } else if s.x > m.width - 2 { m.width - 2 } else { s.x };
        let y = if s.y < 1 { 1 } else if s.y > m.height - 2 { m.height - 2 } else { s.y };
        let pos = GridVec::new(x, y);
        assert(pos == GridVec { x: x as i32, y: y as i32 });
        if !near_spawn(pos, spawn) && m.is_spawnable(&pos, blocking) {
            found.push(MonsterSpawn { template, pos, look: None });
        }
        i = i + 1;
    }
    out.append(&mut found);
}

/// Plans every NPC of a new world on map `m` under `seed`: the left-bank
/// group (templates 2 and 3, looking right) and the right-bank group
/// (template 0, looking left) by the bridge, townsfolk around civilian
/// anchors, deputies around police anchors, and up to two stragglers of
/// each of five groups taken from the candidate spots `scatter_spots`
/// (one list per group). No NPC comes within 10 tiles of `spawn`.
/// `blocking` lists the prop kinds that block movement.
pub fn plan_monster_spawns(m: &GameMap, seed: NoiseSeed, blocking: &[Props], spawn: GridVec, scatter_spots: &Vec<Vec<GridVec>>) -> (r: Vec<MonsterSpawn>)
    requires
        m.wf(),
        3 <= m.width <= 0x1000_0000,
        3 <= m.height <= 0x1000_0000,
        anchors_fit(m),
        scatter_spots@.len() == 5,
    ensures
        r@ == spawn_plan(m, seed, blocking@, spawn, scatter_spots@.map_values(|v: Vec<GridVec>| v@)),
{
    let mut out: Vec<MonsterSpawn> = Vec::new();
    let gs = seed.wrapping_add(54321);
    let found = m.find_bridge_center();
    proof {
        match found {
            Some(p) => {
                assert(is_bridge_center(m, p));
                let q = choose|q: GridVec| is_bridge_center(m, q);
                lemma_bridge_center_unique(m, p, q);
            },
            None => {
                assert(!exists|p: GridVec| is_bridge_center(m, p)) by {
                    if exists|p: GridVec| is_bridge_center(m, p) {
                        let p = choose|p: GridVec| is_bridge_center(m, p);
                        assert(m.bridge_at(p.x as int, p.y as int));
                    }
                }
            },
        }
    }
    let center = match found {
        Some(p) => p,
        None => GridVec::new(m.width / 2, m.height / 2),
    };
    assert(center == gathering_point(m));
    let river_cx = m.width / 2;
    let left = AreaScan {
        cx: river_cx,
        cy: center.y,
        dx_lo: -BANK_REACH,
        dx_hi: -1,
        reach: BANK_REACH,
        first_template: 2,
        second_template: 3,
        target: 8 + noise_scaled(center.x, center.y, gs.wrapping_add(1111), 4),
        noise_seed: gs.wrapping_add(22222),
        ground_only: true,
        look: Some(GridVec::new(1, 0)),
    };
    assert(left == bank_scan(m, seed, true));
    scan_area(m, blocking, spawn, left, &mut out);
    let right = AreaScan {
        cx: river_cx,
        cy: center.y,
        dx_lo: 1,
        dx_hi: BANK_REACH,
        reach: BANK_REACH,
        first_template: 0,
        second_template: 0,
        target: 8 + noise_scaled(center.x + 1, center.y, gs.wrapping_add(2222), 4),
        noise_seed: gs.wrapping_add(33333),
        ground_only: true,
        look: Some(GridVec::new(-1, 0)),
    };
    assert(right == bank_scan(m, seed, false));
    scan_area(m, blocking, spawn, right, &mut out);
    spawn_at_anchors(m, blocking, spawn, seed, Faction::Civilians, false, &mut out);
    spawn_at_anchors(m, blocking, spawn, seed, Faction::Police, true, &mut out);
    let ghost spots = scatter_spots@.map_values(|v: Vec<GridVec>| v@);
    let ghost before = out@;
    let mut g: usize = 0;
    while g < 5
        invariant
            m.wf(),
            3 <= m.width,
            3 <= m.height,
            g <= 5,
            scatter_spots@.len() == 5,
            spots == scatter_spots@.map_values(|v: Vec<GridVec>| v@),
            before + all_stragglers(m, blocking@, spawn, seed, spots, 0) == out@ + all_stragglers(
                m,
                blocking@,
                spawn,
                seed,
                spots,
                g as int,
            ),
        decreases 5 - g,
    {
        let ghost prev = out@;
        let ghost rest = all_stragglers(m, blocking@, spawn, seed, spots, g + 1);
        spawn_stragglers(m, blocking, spawn, seed, &scatter_spots[g], g, &mut out);
        proof {
            assert(spots[g as int] == scatter_spots@[g as int]@);
            assert(prev + (scatter_spawns(m, blocking@, spawn, spots[g as int], straggler(g as int).0, straggler_max(seed, g as int), 0, Seq::empty()) + rest) =~= out@ + rest);
        }
        g = g + 1;
    }
    proof {
        assert(out@ + all_stragglers(m, blocking@, spawn, seed, spots, 5) =~= out@);
    }
    out
}

} // verus!
