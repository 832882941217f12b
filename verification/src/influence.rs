//! The AI's view of the map: the influence map that weights each tile for
//! path finding (hazards repel, cover attracts), and the line tests an NPC
//! makes before it shoots: whether sight is clear, and whether a friend
//! stands in the way.
use vstd::prelude::*;

use crate::components::{EntityId, Faction};
use crate::gamemap::{props_listed, GameMap};
use crate::graphics::{Floor, Props};
use crate::grid_vec::{abs_int, add_spec, dir8, GridVec};
use crate::resources::{contains_point, SpatialIndex};
use crate::world_check::is_line;

verus! {

/// Penalty for a tile that is on fire.
pub const COST_FIRE: i32 = 50;
/// Penalty for a tile next to fire.
pub const COST_NEAR_FIRE: i32 = 25;
/// Penalty for a tile next to a cactus.
pub const COST_NEAR_CACTUS: i32 = 30;
/// Penalty for a sand or smoke cloud tile.
pub const COST_SAND_CLOUD: i32 = 20;
/// Penalty for shallow water.
pub const COST_SHALLOW_WATER: i32 = 8;
/// Penalty for deep water.
pub const COST_DEEP_WATER: i32 = 15;
/// Bonus per adjacent wall (cover).
pub const COST_COVER_PER_WALL: i32 = 2;
/// Penalty for open ground with no adjacent cover.
pub const COST_EXPOSED: i32 = 3;

/// The penalty of a tile's own ground.
pub open spec fn ground_cost(f: Option<Floor>) -> int {
    if f == Some(Floor::Fire) {
        50
    } else if f == Some(Floor::SandCloud) {
        20
    } else if f == Some(Floor::ShallowWater) {
        8
    } else if f == Some(Floor::DeepWater) {
        15
    } else {
        0
    }
}

/// The `i`-th neighbour of `(x, y)`, clockwise from north.
pub open spec fn nb(x: int, y: int, i: int) -> (int, int) {
    (x + dir8(i).x, y + dir8(i).y)
}

/// The `i`-th neighbour is on the map and burning.
pub open spec fn fire_at(m: &GameMap, x: int, y: int, i: int) -> bool {
    let (a, c) = nb(x, y, i);
    m.in_bounds(a, c) && m.voxel(a, c).floor == Some(Floor::Fire)
}

/// The `i`-th neighbour is on the map and holds a cactus.
pub open spec fn cactus_at(m: &GameMap, x: int, y: int, i: int) -> bool {
    let (a, c) = nb(x, y, i);
    m.in_bounds(a, c) && m.voxel(a, c).props == Some(Props::Cactus)
}

/// The `i`-th neighbour is on the map and holds a prop that blocks
/// movement.
pub open spec fn cover_at(m: &GameMap, blocking: Seq<Props>, x: int, y: int, i: int) -> bool {
    let (a, c) = nb(x, y, i);
    &&& m.in_bounds(a, c)
    &&& m.voxel(a, c).props matches Some(p) && blocking.contains(p)
}

/// How many of the first `k` neighbours give cover.
pub open spec fn cover_count(m: &GameMap, blocking: Seq<Props>, x: int, y: int, k: int) -> int
    decreases k,
{
    if k <= 0 {
        0
    } else {
        cover_count(m, blocking, x, y, k - 1) + if cover_at(m, blocking, x, y, k - 1) {
            1int
        } else {
            0int
        }
    }
}

/// The traversal cost of `(x, y)` for the AI, or `None` where it cannot
/// walk: 10, plus the penalty of its ground, plus 25 next to fire and 30
/// next to a cactus; then each adjacent wall (a prop in `blocking`) takes
/// 2 off, never below 1, while open ground with no adjacent wall adds 3.
pub open spec fn tile_cost_spec(m: &GameMap, blocking: Seq<Props>, x: int, y: int) -> Option<int> {
    if !m.passable_at(blocking, x, y) {
        None
    } else {
        let near_fire = exists|i: int| 0 <= i < 8 && #[trigger] fire_at(m, x, y, i);
        let near_cactus = exists|i: int| 0 <= i < 8 && #[trigger] cactus_at(m, x, y, i);
        let c = 10 + ground_cost(m.voxel(x, y).floor) + (if near_fire { 25int } else { 0int }) + (if near_cactus {
            30int
        } else {
            0int
        });
        let walls = cover_count(m, blocking, x, y, 8);
        Some(
            if walls > 0 {
                c - (if 2 * walls < c - 1 { 2 * walls } else { c - 1 })
            } else {
                c + 3
            },
        )
    }
}

/// Returns the AI traversal cost of `pos` (see `tile_cost_spec`), given
/// the prop kinds that block movement; `None` where it cannot walk.
pub fn tile_cost(pos: GridVec, map: &GameMap, blocking: &[Props]) -> (r: Option<i32>)
    requires
        map.wf(),
    ensures
        r matches Some(c) ==> tile_cost_spec(map, blocking@, pos.x as int, pos.y as int) == Some(c as int),
        r is None ==> tile_cost_spec(map, blocking@, pos.x as int, pos.y as int) is None,
        r matches Some(c) ==> c >= 1,
{
    if !map.is_passable(&pos, blocking) {
        return None;
    }
    let ghost (x, y) = (pos.x as int, pos.y as int);
    let v = map.voxels[pos.y as usize][pos.x as usize];
    let mut c: i32 = 10;
    match v.floor {
        Some(Floor::Fire) => c = c + COST_FIRE,
        Some(Floor::SandCloud) => c = c + COST_SAND_CLOUD,
        Some(Floor::ShallowWater) => c = c + COST_SHALLOW_WATER,
        Some(Floor::DeepWater) => c = c + COST_DEEP_WATER,
        _ => {},
    }
    let ns = pos.all_neighbors();
    let mut walls: i32 = 0;
    let mut near_fire = false;
    let mut near_cactus = false;
    let mut i: usize = 0;
    while i < 8
        invariant
            map.wf(),
            map.in_bounds(x, y),
            x == pos.x,
            y == pos.y,
            i <= 8,
            forall|k: int| 0 <= k < 8 ==> #[trigger] ns@[k] == add_spec(pos, dir8(k)),
            walls == cover_count(map, blocking@, x, y, i as int),
            0 <= walls <= i,
            near_fire == exists|k: int| 0 <= k < i && #[trigger] fire_at(map, x, y, k),
            near_cactus == exists|k: int| 0 <= k < i && #[trigger] cactus_at(map, x, y, k),
        decreases 8 - i,
    {
        let n = ns[i];
        proof {
            assert((n.x as int, n.y as int) == nb(x, y, i as int));
        }
        match map.get_voxel_at(&n) {
            Some(nv) => {
                let cactus = match nv.props {
                    Some(Props::Cactus) => true,
                    _ => false,
                };
                if cactus {
                    near_cactus = true;
                }
                let fire = match nv.floor {
                    Some(Floor::Fire) => true,
                    _ => false,
                };
                if fire {
                    near_fire = true;
                }
                match nv.props {
                    Some(p) => {
                        if props_listed(blocking, p) {
                            walls = walls + 1;
                        }
                    },
                    None => {},
                }
            },
            None => {},
        }
        proof {
            assert(fire_at(map, x, y, i as int) == (map.in_bounds(n.x as int, n.y as int) && map.voxel(
                n.x as int,
                n.y as int,
            ).floor == Some(Floor::Fire)));
            assert(cactus_at(map, x, y, i as int) == (map.in_bounds(n.x as int, n.y as int) && map.voxel(
                n.x as int,
                n.y as int,
            ).props == Some(Props::Cactus)));
        }
        i = i + 1;
    }
    if near_fire {
        c = c + COST_NEAR_FIRE;
    }
    if near_cactus {
        c = c + COST_NEAR_CACTUS;
    }
    if walls > 0 {
        let bonus = walls * COST_COVER_PER_WALL;
        let cap = c - 1;
        c = c - if bonus < cap { bonus } else { cap };
    } else {
        c = c + COST_EXPOSED;
    }
    Some(c)
}

/// Another entity than `me` that blocks movement (one of `blockers`)
/// stands on `pos`.
pub open spec fn entity_blocked(spatial: &SpatialIndex, blockers: Seq<EntityId>, me: EntityId, pos: GridVec) -> bool {
    exists|k: int| 0 <= k < spatial.at(pos).len() && spatial.at(pos)[k] != me && #[trigger] blockers.contains(spatial.at(pos)[k])
}

/// The AI traversal cost of `pos` for `me`: `None` where another blocking
/// entity stands, otherwise the tile's cost (see `tile_cost_spec`).
pub open spec fn ai_cost_spec(
    m: &GameMap,
    spatial: &SpatialIndex,
    blockers: Seq<EntityId>,
    blocking: Seq<Props>,
    me: EntityId,
    pos: GridVec,
) -> Option<int> {
    if entity_blocked(spatial, blockers, me, pos) {
        None
    } else {
        tile_cost_spec(m, blocking, pos.x as int, pos.y as int)
    }
}

/// Returns the AI traversal cost of `pos` for `self_entity`: `None` when
/// another entity that blocks movement (one of `blockers`) stands there,
/// otherwise `tile_cost`.
pub fn tile_cost_for_ai(
    pos: GridVec,
    self_entity: EntityId,
    map: &GameMap,
    spatial: &SpatialIndex,
    blockers: &[EntityId],
    blocking: &[Props],
) -> (r: Option<i32>)
    requires
        map.wf(),
        spatial.wf(),
    ensures
        r matches Some(c) ==> ai_cost_spec(map, spatial, blockers@, blocking@, self_entity, pos) == Some(c as int),
        r is None ==> ai_cost_spec(map, spatial, blockers@, blocking@, self_entity, pos) is None,
{
    let here = spatial.entities_at(&pos);
    let mut k: usize = 0;
    while k < here.len()
        invariant
            here@ == spatial.at(pos),
            k <= here@.len(),
            forall|q: int| 0 <= q < k ==> !(here@[q] != self_entity && #[trigger] blockers@.contains(here@[q])),
        decreases here@.len() - k,
    {
        let e = here[k];
        if e != self_entity && entity_listed(blockers, e) {
            return None;
        }
        k = k + 1;
    }
    tile_cost(pos, map, blocking)
}

/// Whether `e` is in `list`.
pub fn entity_listed(list: &[EntityId], e: EntityId) -> (r: bool)
    ensures
        r == list@.contains(e),
{
    let mut k: usize = 0;
    while k < list.len()
        invariant
            k <= list@.len(),
            forall|q: int| 0 <= q < k ==> list@[q] != e,
        decreases list@.len() - k,
    {
        if list[k] == e {
            return true;
        }
        k = k + 1;
    }
    false
}

/// Along a line, the major coordinate moves one unit per point.
proof fn lemma_line_major(a: GridVec, b: GridVec, path: Seq<GridVec>, i: int)
    requires
        is_line(a, b, path),
        0 <= i < path.len(),
    ensures
        abs_int(b.x - a.x) >= abs_int(b.y - a.y) ==> path[i].x == if a.x < b.x { a.x + i } else { a.x - i },
        abs_int(b.x - a.x) < abs_int(b.y - a.y) ==> path[i].y == if a.y < b.y { a.y + i } else { a.y - i },
    decreases i,
{
    if i > 0 {
        let j = i - 1;
        lemma_line_major(a, b, path, j);
        assert(crate::grid_vec::line_step(a, b, path[j], path[j + 1]));
    }
}

/// Only the last point of a line is its end.
proof fn lemma_line_reaches_end_last(a: GridVec, b: GridVec, path: Seq<GridVec>, i: int)
    requires
        is_line(a, b, path),
        0 <= i < path.len() - 1,
    ensures
        path[i] != b,
{
    lemma_line_major(a, b, path, i);
}

/// What stops sight at `p`: a sand cloud listed in `clouds` or laid on
/// the ground, the map's edge, or a prop of a kind in `opaque` (the prop
/// kinds that block vision).
pub open spec fn blocks_sight(m: &GameMap, clouds: Seq<GridVec>, opaque: Seq<Props>, p: GridVec) -> bool {
    ||| clouds.contains(p)
    ||| !m.in_bounds(p.x as int, p.y as int)
    ||| m.voxel(p.x as int, p.y as int).floor == Some(Floor::SandCloud)
    ||| (m.voxel(p.x as int, p.y as int).props matches Some(q) && opaque.contains(q))
}

/// Nothing on the line strictly between its ends blocks sight.
pub open spec fn sight_clear(m: &GameMap, clouds: Seq<GridVec>, opaque: Seq<Props>, path: Seq<GridVec>) -> bool {
    forall|i: int| 0 < i < path.len() - 1 ==> !#[trigger] blocks_sight(m, clouds, opaque, path[i])
}

/// Checks line of sight from `origin` to `target` along the Bresenham
/// line, ignoring the view cone: clear when no tile strictly between the
/// ends is a sand cloud (listed in `sand_clouds` or on the ground), off
/// the map, or holds a prop of a kind in `opaque`. The ends themselves
/// never block, so one can fire from or into a doorway.
pub fn has_clear_line_of_sight(
    origin: GridVec,
    target: GridVec,
    map: &GameMap,
    sand_clouds: &[GridVec],
    opaque: &[Props],
) -> (r: bool)
    requires
        map.wf(),
        abs_int(target.x - origin.x) <= i32::MAX,
        abs_int(target.y - origin.y) <= i32::MAX,
    ensures
        exists|path: Seq<GridVec>| is_line(origin, target, path) && r == sight_clear(map, sand_clouds@, opaque@, path),
{
    let path = origin.bresenham_line(target);
    proof {
        assert(is_line(origin, target, path@));
    }
    let n = path.len();
    let mut i: usize = 1;
    while i < n
        invariant
            map.wf(),
            n == path@.len(),
            is_line(origin, target, path@),
            1 <= i <= n,
            forall|k: int| 0 < k < i && k < n - 1 ==> !#[trigger] blocks_sight(map, sand_clouds@, opaque@, path@[k]),
        decreases n - i,
    {
        let tile = path[i];
        if tile == target {
            proof {
                if i < n - 1 {
                    lemma_line_reaches_end_last(origin, target, path@, i as int);
                }
                assert(is_line(origin, target, path@) && sight_clear(map, sand_clouds@, opaque@, path@));
            }
            return true;
        }
        proof {
            assert(i < n - 1);
        }
        if contains_point(sand_clouds, tile) {
            proof {
                assert(blocks_sight(map, sand_clouds@, opaque@, path@[i as int]));
                assert(is_line(origin, target, path@) && !sight_clear(map, sand_clouds@, opaque@, path@));
            }
            return false;
        }
        match map.get_voxel_at(&tile) {
            Some(v) => {
                let cloud = match v.floor {
                    Some(Floor::SandCloud) => true,
                    _ => false,
                };
                if cloud {
                    proof {
                        assert(blocks_sight(map, sand_clouds@, opaque@, path@[i as int]));
                        assert(is_line(origin, target, path@) && !sight_clear(map, sand_clouds@, opaque@, path@));
                    }
                    return false;
                }
                match v.props {
                    Some(p) => {
                        if props_listed(opaque, p) {
                            proof {
                                assert(blocks_sight(map, sand_clouds@, opaque@, path@[i as int]));
                                assert(is_line(origin, target, path@) && !sight_clear(map, sand_clouds@, opaque@, path@));
                            }
                            return false;
                        }
                    },
                    None => {},
                }
            },
            None => {
                proof {
                    assert(blocks_sight(map, sand_clouds@, opaque@, path@[i as int]));
                    assert(is_line(origin, target, path@) && !sight_clear(map, sand_clouds@, opaque@, path@));
                }
                return false;
            },
        }
        proof {
            assert(!blocks_sight(map, sand_clouds@, opaque@, path@[i as int]));
        }
        i = i + 1;
    }
    proof {
        assert(is_line(origin, target, path@) && sight_clear(map, sand_clouds@, opaque@, path@));
    }
    true
}

/// The faction `e` belongs to according to `factions`, if listed.
pub open spec fn faction_of(factions: Seq<(EntityId, Faction)>, e: EntityId) -> Option<Faction> {
    if exists|k: int| 0 <= k < factions.len() && #[trigger] factions[k].0 == e {
        Some(factions[choose|k: int| 0 <= k < factions.len() && #[trigger] factions[k].0 == e].1)
    } else {
        None
    }
}

/// No entity is listed twice.
pub open spec fn entities_unique(factions: Seq<(EntityId, Faction)>) -> bool {
    forall|i: int, j: int|
        0 <= i < factions.len() && 0 <= j < factions.len() && i != j ==> #[trigger] factions[i].0 != #[trigger] factions[j].0
}

/// An entity of faction `f`, other than `me`, stands on `p`.
pub open spec fn friend_on(
    spatial: &SpatialIndex,
    factions: Seq<(EntityId, Faction)>,
    me: EntityId,
    f: Faction,
    p: GridVec,
) -> bool {
    exists|k: int|
        0 <= k < spatial.at(p).len() && spatial.at(p)[k] != me && #[trigger] faction_of(factions, spatial.at(p)[k])
            == Some(f)
}

/// The faction of `e` in `factions` (see `faction_of`).
pub(crate) fn lookup_faction(factions: &[(EntityId, Faction)], e: EntityId) -> (r: Option<Faction>)
    requires
        entities_unique(factions@),
    ensures
        r == faction_of(factions@, e),
{
    let mut k: usize = 0;
    while k < factions.len()
        invariant
            entities_unique(factions@),
            k <= factions@.len(),
            forall|q: int| 0 <= q < k ==> #[trigger] factions@[q].0 != e,
        decreases factions@.len() - k,
    {
        if factions[k].0 == e {
            proof {
                assert(factions@[k as int].0 == e);
                let c = choose|q: int| 0 <= q < factions@.len() && #[trigger] factions@[q].0 == e;
                assert(factions@[c].0 == factions@[k as int].0);
                assert(c == k);
            }
            return Some(factions[k].1);
        }
        k = k + 1;
    }
    None
}

/// Whether a friend of `me` (an NPC of the same faction, other than
/// `me`, as listed in `factions`) stands on the Bresenham line from
/// `origin` to `target`, strictly between its ends; always `false` for an
/// NPC without a faction. Keeps NPCs from shooting through allies.
pub fn has_friendly_in_path(
    origin: GridVec,
    target: GridVec,
    my_faction: Option<Faction>,
    self_entity: EntityId,
    spatial: &SpatialIndex,
    factions: &[(EntityId, Faction)],
) -> (r: bool)
    requires
        spatial.wf(),
        entities_unique(factions@),
        abs_int(target.x - origin.x) <= i32::MAX,
        abs_int(target.y - origin.y) <= i32::MAX,
    ensures
        my_faction is None ==> !r,
        my_faction matches Some(f) ==> exists|path: Seq<GridVec>|
            is_line(origin, target, path) && r == exists|i: int|
                0 < i < path.len() - 1 && #[trigger] friend_on(spatial, factions@, self_entity, f, path[i]),
{
    if my_faction.is_none() {
        return false;
    }
    let f = my_faction.unwrap();
    let path = origin.bresenham_line(target);
    let n = path.len();
    let mut i: usize = 1;
    while i < n
        invariant
            my_faction == Some(f),
            spatial.wf(),
            entities_unique(factions@),
            n == path@.len(),
            is_line(origin, target, path@),
            1 <= i <= n,
            forall|k: int| 0 < k < i && k < n - 1 ==> !#[trigger] friend_on(spatial, factions@, self_entity, f, path@[k]),
        decreases n - i,
    {
        let tile = path[i];
        if tile == target {
            proof {
                if i < n - 1 {
                    lemma_line_reaches_end_last(origin, target, path@, i as int);
                }
                assert forall|k: int| 0 < k < n - 1 implies !#[trigger] friend_on(spatial, factions@, self_entity, f, path@[k]) by {
                    assert(i == n - 1);
                }
                assert(is_line(origin, target, path@) && !(exists|k: int|
                    0 < k < path@.len() - 1 && #[trigger] friend_on(spatial, factions@, self_entity, f, path@[k])));
            }
            return false;
        }
        let here = spatial.entities_at(&tile);
        let mut j: usize = 0;
        while j < here.len()
            invariant
                here@ == spatial.at(tile),
                my_faction == Some(f),
                spatial.wf(),
                n == path@.len(),
                is_line(origin, target, path@),
                1 <= i < n,
                tile == path@[i as int],
                tile != target,
                entities_unique(factions@),
                j <= here@.len(),
                forall|q: int| 0 <= q < j ==> !(here@[q] != self_entity && #[trigger] faction_of(factions@, here@[q]) == Some(f)),
            decreases here@.len() - j,
        {
            let e = here[j];
            if e != self_entity {
                match lookup_faction(factions, e) {
                    Some(g) => {
                        if g == f {
                            proof {
                                assert(i < n - 1);
                                assert(faction_of(factions@, here@[j as int]) == Some(f));
                                assert(friend_on(spatial, factions@, self_entity, f, path@[i as int]));
                                assert(is_line(origin, target, path@) && (exists|k: int|
                                    0 < k < path@.len() - 1 && #[trigger] friend_on(spatial, factions@, self_entity, f, path@[k])));
                            }
                            return true;
                        }
                    },
                    None => {},
                }
            }
            j = j + 1;
        }
        proof {
            assert(i < n - 1);
            assert(!friend_on(spatial, factions@, self_entity, f, path@[i as int]));
        }
        i = i + 1;
    }
    proof {
        assert(is_line(origin, target, path@) && !(exists|k: int|
            0 < k < path@.len() - 1 && #[trigger] friend_on(spatial, factions@, self_entity, f, path@[k])));
    }
    false
}

} // verus!
