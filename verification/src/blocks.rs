//! The town's blocks: whether a planned building can stand where the plan
//! put it, and the small parks laid in the blocks left for them.
use vstd::prelude::*;

use crate::decor::{exterior_ops, place_exterior_props, quot, op};
use crate::gamemap::{building_in_range, in_rect, place_building, placed_voxel, same_frame, GameMap, Voxel};
use crate::graphics::{Floor, Props};
use crate::landmarks::{place_props, put_all};
use crate::noise::{fraction_below, noise2d_spec, noise_below, wadd64, NoiseSeed};
use crate::streets::tiles;
use crate::structures::stamped;
use crate::town::{building_small, small, Building};

verus! {

/// Ground no building stands on: road, water, beach and beach sand.
pub open spec fn unbuildable(f: Option<Floor>) -> bool {
    f == Some(Floor::DirtRoad) || f == Some(Floor::ShallowWater) || f == Some(Floor::DeepWater) || f == Some(
        Floor::Beach,
    ) || f == Some(Floor::BeachSand)
}

/// The tiles looked at before a building is placed: its four corners, its
/// centre, and its entrance just below the middle of its south side.
pub open spec fn probe_points(b: Building) -> Seq<(int, int)> {
    let (x, y, w, h) = (b.x as int, b.y as int, b.w as int, b.h as int);
    seq![
        (x, y),
        (x + w - 1, y),
        (x, y + h - 1),
        (x + w - 1, y + h - 1),
        (x + quot(w, 2), y + quot(h, 2)),
        (x + quot(w, 2), y + h),
    ]
}

/// A planned building can be placed: none of its probe points is an
/// on-map tile of road, water or beach, and no on-map tile of its
/// rectangle is claimed.
pub open spec fn building_site_clear_spec(m: &GameMap, b: Building) -> bool {
    &&& forall|k: int|
        0 <= k < 6 ==> {
            let p = #[trigger] probe_points(b)[k];
            !(m.in_bounds(p.0, p.1) && unbuildable(m.voxel(p.0, p.1).floor))
        }
    &&& !exists|a: int, c: int|
        b.x <= a < b.x + b.w && b.y <= c < b.y + b.h && m.in_bounds(a, c) && #[trigger] m.occupied(a, c)
}

/// Whether `f` is ground no building stands on.
fn is_unbuildable(f: Option<Floor>) -> (r: bool)
    ensures
        r == unbuildable(f),
{
    match f {
        Some(Floor::DirtRoad) | Some(Floor::ShallowWater) | Some(Floor::DeepWater) | Some(Floor::Beach)
        | Some(Floor::BeachSand) => true,
        _ => false,
    }
}

/// `v` rounded toward zero after halving.
fn half(v: i32) -> (r: i32)
    requires
        v > i32::MIN,
    ensures
        r == quot(v as int, 2),
{
    if v >= 0 {
        v / 2
    } else {
        -((-v) / 2)
    }
}

/// Whether the planned building `b` can be placed (see
/// `building_site_clear_spec`): buildings planned over road, water or
/// beach, or over claimed tiles, are dropped.
pub fn building_site_clear(map: &GameMap, b: &Building) -> (r: bool)
    requires
        map.wf(),
        building_small(*b),
    ensures
        r == building_site_clear_spec(map, *b),
{
    let (x, y, w, h) = (b.x, b.y, b.w, b.h);
    let hw = half(w);
    let hh = half(h);
    let points = [(x, y), (x + w - 1, y), (x, y + h - 1), (x + w - 1, y + h - 1), (x + hw, y + hh), (x + hw, y + h)];
    let ghost probes = probe_points(*b);
    proof {
        assert forall|k: int| 0 <= k < 6 implies (points@[k].0 as int, points@[k].1 as int) == #[trigger] probes[k] by {}
    }
    let mut k: usize = 0;
    while k < 6
        invariant
            map.wf(),
            k <= 6,
            probes == probe_points(*b),
            forall|q: int| 0 <= q < 6 ==> (points@[q].0 as int, points@[q].1 as int) == #[trigger] probes[q],
            forall|q: int|
                0 <= q < k ==> {
                    let p = #[trigger] probes[q];
                    !(map.in_bounds(p.0, p.1) && unbuildable(map.voxel(p.0, p.1).floor))
                },
        decreases 6 - k,
    {
        let (px, py) = points[k];
        if px >= 0 && px < map.width && py >= 0 && py < map.height {
            let v = map.voxels[py as usize][px as usize];
            if is_unbuildable(v.floor) {
                proof {
                    assert(probes[k as int] == (px as int, py as int));
                }
                return false;
            }
        }
        proof {
            assert(probes[k as int] == (px as int, py as int));
        }
        k = k + 1;
    }
    !map.is_occupied(x, y, w, h)
}

/// Ground a park is not laid over: road, sidewalk, bridge, water, beach
/// and beach sand.
pub open spec fn park_blocked(f: Option<Floor>) -> bool {
    f == Some(Floor::DirtRoad) || f == Some(Floor::Sidewalk) || f == Some(Floor::Bridge) || f == Some(
        Floor::ShallowWater,
    ) || f == Some(Floor::DeepWater) || f == Some(Floor::Beach) || f == Some(Floor::BeachSand)
}

/// The park `(px, py, pw, ph)` would cover road, sidewalk, bridge, water
/// or beach.
pub open spec fn park_on_road(m: &GameMap, px: int, py: int, pw: int, ph: int) -> bool {
    exists|a: int, c: int|
        px <= a < px + pw && py <= c < py + ph && m.in_bounds(a, c) && park_blocked(#[trigger] m.voxel(a, c).floor)
}

/// The tiles of the park laid on `g`: grass with nothing on it over the
/// on-map tiles of its rectangle.
pub open spec fn park_ground(g: spec_fn(int, int) -> Voxel, m: &GameMap, px: int, py: int, pw: int, ph: int) -> spec_fn(
    int,
    int,
) -> Voxel {
    |a: int, c: int|
        if px <= a < px + pw && py <= c < py + ph && m.in_bounds(a, c) {
            Voxel { floor: Some(Floor::Grass), props: None }
        } else {
            g(a, c)
        }
}

/// The park's furniture: none in a park under 4 by 4; otherwise benches
/// in the two top corners and a bush in the middle, then two bushes near
/// the bottom or a well, by the noise at its corner.
pub open spec fn park_props(px: int, py: int, pw: int, ph: int, seed: u64) -> Seq<(i32, i32, Props)> {
    if pw >= 4 && ph >= 4 {
        seq![
            op(px + 1, py + 1, Props::Bench),
            op(px + pw - 2, py + 1, Props::Bench),
            op(px + quot(pw, 2), py + quot(ph, 2), Props::Bush),
        ] + if fraction_below(noise2d_spec(px as i32, py as i32, wadd64(seed, (px * 31 + py * 37) as u64)), 1, 2) {
            seq![
                op(px + quot(pw, 2) - 1, py + ph - 2, Props::Bush),
                op(px + quot(pw, 2) + 1, py + ph - 2, Props::Bush),
            ]
        } else {
            seq![op(px + 1, py + ph - 2, Props::Well)]
        }
    } else {
        seq![]
    }
}

/// Lays a park in the block `(px, py, pw, ph)` unless it would cover road,
/// sidewalk, bridge, water or beach: grass over the block, then benches
/// and bushes, or a well (see `park_props`).
pub fn place_park(map: &mut GameMap, px: i32, py: i32, pw: i32, ph: i32, seed: NoiseSeed)
    requires
        old(map).wf(),
        0 <= px <= 0x100_0000,
        0 <= py <= 0x100_0000,
        small(pw as int),
        small(ph as int),
    ensures
        park_on_road(old(map), px as int, py as int, pw as int, ph as int) ==> same_frame(final(map), old(map))
            && final(map).voxels@ == old(map).voxels@,
        !park_on_road(old(map), px as int, py as int, pw as int, ph as int) ==> stamped(
            old(map),
            final(map),
            put_all(
                park_ground(tiles(old(map)), old(map), px as int, py as int, pw as int, ph as int),
                old(map),
                park_props(px as int, py as int, pw as int, ph as int, seed),
            ),
        ),
{
    let ghost m0 = *map;
    let mut y = py;
    while y < py + ph
        invariant
            map.wf(),
            *map == m0,
            0 <= py <= 0x100_0000,
            small(pw as int),
            small(ph as int),
            0 <= px <= 0x100_0000,
            py <= y <= py + ph || (y == py && ph <= 0),
            forall|a: int, c: int|
                px <= a < px + pw && py <= c < y && map.in_bounds(a, c) ==> !park_blocked(#[trigger] map.voxel(a, c).floor),
        decreases py + ph - y,
    {
        let mut x = px;
        while x < px + pw
            invariant
                map.wf(),
                *map == m0,
                0 <= py <= 0x100_0000,
                small(pw as int),
                small(ph as int),
                0 <= px <= 0x100_0000,
                py <= y < py + ph,
                px <= x <= px + pw || (x == px && pw <= 0),
                forall|a: int, c: int|
                    px <= a < px + pw && py <= c < y && map.in_bounds(a, c) ==> !park_blocked(#[trigger] map.voxel(a, c).floor),
                forall|a: int|
                    px <= a < x && map.in_bounds(a, y as int) ==> !park_blocked(#[trigger] map.voxel(a, y as int).floor),
            decreases px + pw - x,
        {
            if x < map.width && y < map.height {
                let f = map.voxels[y as usize][x as usize].floor;
                let blocked = match f {
                    Some(Floor::DirtRoad) | Some(Floor::Sidewalk) | Some(Floor::Bridge) | Some(Floor::ShallowWater)
                    | Some(Floor::DeepWater) | Some(Floor::Beach) | Some(Floor::BeachSand) => true,
                    _ => false,
                };
                if blocked {
                    proof {
                        assert(f == map.voxel(x as int, y as int).floor);
                        assert(park_on_road(&m0, px as int, py as int, pw as int, ph as int));
                    }
                    return;
                }
            }
            x = x + 1;
        }
        y = y + 1;
    }
    proof {
        assert(!park_on_road(&m0, px as int, py as int, pw as int, ph as int));
    }
    let ghost g = park_ground(tiles(&m0), &m0, px as int, py as int, pw as int, ph as int);
    let mut y = py;
    while y < py + ph
        invariant
            m0.wf(),
            same_frame(&*map, &m0),
            0 <= py <= 0x100_0000,
            small(pw as int),
            small(ph as int),
            0 <= px <= 0x100_0000,
            py <= y <= py + ph || (y == py && ph <= 0),
            g == park_ground(tiles(&m0), &m0, px as int, py as int, pw as int, ph as int),
            forall|a: int, c: int| map.in_bounds(a, c) ==> #[trigger] map.voxel(a, c) == if c < y { g(a, c) } else { m0.voxel(a, c) },
        decreases py + ph - y,
    {
        let mut x = px;
        while x < px + pw
            invariant
                m0.wf(),
                same_frame(&*map, &m0),
                0 <= py <= 0x100_0000,
                small(pw as int),
                small(ph as int),
                0 <= px <= 0x100_0000,
                py <= y < py + ph,
                px <= x <= px + pw || (x == px && pw <= 0),
                g == park_ground(tiles(&m0), &m0, px as int, py as int, pw as int, ph as int),
                forall|a: int, c: int|
                    map.in_bounds(a, c) ==> #[trigger] map.voxel(a, c) == if c < y || (c == y && a < x) {
                        g(a, c)
                    } else {
                        m0.voxel(a, c)
                    },
            decreases px + pw - x,
        {
            if x < map.width && y < map.height {
                crate::gamemap::put_voxel(map, x, y, Voxel { floor: Some(Floor::Grass), props: None });
            }
            x = x + 1;
        }
        y = y + 1;
    }
    let mut ops: Vec<(i32, i32, Props)> = Vec::new();
    if pw >= 4 && ph >= 4 {
        let ps = seed.wrapping_add(px as u64 * 31 + py as u64 * 37);
        let hw = half(pw);
        let hh = half(ph);
        ops.push((px + 1, py + 1, Props::Bench));
        ops.push((px + pw - 2, py + 1, Props::Bench));
        ops.push((px + hw, py + hh, Props::Bush));
        if noise_below(px, py, ps, 1, 2) {
            ops.push((px + hw - 1, py + ph - 2, Props::Bush));
            ops.push((px + hw + 1, py + ph - 2, Props::Bush));
        } else {
            ops.push((px + 1, py + ph - 2, Props::Well));
        }
    }
    proof {
        assert(ops@ =~= park_props(px as int, py as int, pw as int, ph as int, seed));
    }
    place_props(map, &ops, Ghost(g), Ghost(m0));
}


/// `mid` is `before` with building `b` placed on it (see `place_building`)
/// and `after` is `mid` with the props around it (see
/// `place_exterior_props`).
pub open spec fn built_on(before: &GameMap, mid: &GameMap, after: &GameMap, b: Building, seed: NoiseSeed) -> bool {
    &&& mid.wf()
    &&& mid.width == before.width
    &&& mid.height == before.height
    &&& mid.faction_anchors@ == before.faction_anchors@
    &&& forall|a: int, c: int|
        mid.in_bounds(a, c) ==> #[trigger] mid.occupied(a, c) == (before.occupied(a, c) || in_rect(b, a, c))
    &&& forall|a: int, c: int| mid.in_bounds(a, c) ==> #[trigger] mid.voxel(a, c) == placed_voxel(before, b, seed, a, c)
    &&& same_frame(after, mid)
    &&& forall|a: int, c: int|
        after.in_bounds(a, c) ==> #[trigger] after.voxel(a, c) == put_all(
            |x: int, y: int| mid.voxel(x, y),
            mid,
            exterior_ops(b, seed),
        )(a, c)
}

/// One turn of the building pass: a building whose site is clear on
/// `before` is built, giving `after`; any other leaves the map as it was.
pub open spec fn building_turn(before: GameMap, after: GameMap, b: Building, seed: NoiseSeed) -> bool {
    if building_site_clear_spec(&before, b) {
        exists|mid: GameMap| #[trigger] built_on(&before, &mid, &after, b, seed)
    } else {
        after == before
    }
}

/// The buildings of `planned` among the first `n` that were built, in
/// order, where `maps[i]` is the map at building `i`'s turn.
pub open spec fn kept_buildings(maps: Seq<GameMap>, planned: Seq<Building>, n: int) -> Seq<Building>
    decreases n,
{
    if n <= 0 {
        Seq::empty()
    } else {
        kept_buildings(maps, planned, n - 1) + if building_site_clear_spec(&maps[n - 1], planned[n - 1]) {
            seq![planned[n - 1]]
        } else {
            Seq::empty()
        }
    }
}

/// The building pass ran through `planned` from `first` to `last` over the
/// maps `maps`, keeping `kept`.
pub open spec fn building_trace(
    first: GameMap,
    last: GameMap,
    planned: Seq<Building>,
    seed: NoiseSeed,
    maps: Seq<GameMap>,
    kept: Seq<Building>,
) -> bool {
    &&& maps.len() == planned.len() + 1
    &&& maps[0] == first
    &&& maps.last() == last
    &&& forall|i: int| 0 <= i < planned.len() ==> #[trigger] building_turn(maps[i], maps[i + 1], planned[i], seed)
    &&& kept == kept_buildings(maps, planned, planned.len() as int)
}

/// Places the planned buildings in order: a building whose site is clear
/// (`building_site_clear`) on the map as the earlier buildings left it is
/// built (`place_building`) and dressed with its exterior props
/// (`place_exterior_props`); any other is skipped. Returns the buildings
/// built, in order.
pub fn place_buildings(map: &mut GameMap, planned: &Vec<Building>, seed: NoiseSeed) -> (placed: Vec<Building>)
    requires
        old(map).wf(),
        forall|i: int|
            0 <= i < planned@.len() ==> building_in_range(#[trigger] planned@[i]) && 0 <= planned@[i].x && 0
                <= planned@[i].y,
    ensures
        final(map).wf(),
        final(map).width == old(map).width,
        final(map).height == old(map).height,
        exists|maps: Seq<GameMap>| #[trigger] building_trace(*old(map), *final(map), planned@, seed, maps, placed@),
{
    let ghost m0 = *map;
    let ghost mut maps: Seq<GameMap> = seq![*map];
    let mut placed: Vec<Building> = Vec::new();
    let mut i: usize = 0;
    while i < planned.len()
        invariant
            map.wf(),
            map.width == m0.width,
            map.height == m0.height,
            i <= planned@.len(),
            forall|j: int|
                0 <= j < planned@.len() ==> building_in_range(#[trigger] planned@[j]) && 0 <= planned@[j].x && 0
                    <= planned@[j].y,
            maps.len() == i + 1,
            maps[0] == m0,
            maps[i as int] == *map,
            forall|j: int| 0 <= j < i ==> #[trigger] building_turn(maps[j], maps[j + 1], planned@[j], seed),
            placed@ == kept_buildings(maps, planned@, i as int),
        decreases planned@.len() - i,
    {
        let b = planned[i];
        assert(building_in_range(planned@[i as int]));
        let ghost before = *map;
        let clear = building_site_clear(map, &b);
        if clear {
            place_building(map, &b, seed);
            let ghost mid = *map;
            place_exterior_props(map, &b, seed);
            placed.push(b);
            proof {
                assert(built_on(&before, &mid, &*map, b, seed));
                assert(building_turn(before, *map, b, seed));
            }
        }
        proof {
            let prev = maps;
            maps = maps.push(*map);
            assert forall|j: int| 0 <= j < i + 1 implies #[trigger] building_turn(maps[j], maps[j + 1], planned@[j], seed) by {
                if j < i {
                    assert(maps[j] == prev[j] && maps[j + 1] == prev[j + 1]);
                }
            }
            assert(kept_buildings(maps, planned@, i as int) == kept_buildings(prev, planned@, i as int)) by {
                lemma_kept_prefix(prev, maps, planned@, i as int);
            }
        }
        i = i + 1;
    }
    assert(building_trace(m0, *map, planned@, seed, maps, placed@));
    placed
}

/// The buildings kept among the first `n` depend only on the first `n`
/// maps.
proof fn lemma_kept_prefix(a: Seq<GameMap>, b: Seq<GameMap>, planned: Seq<Building>, n: int)
    requires
        0 <= n,
        n <= a.len(),
        n <= b.len(),
        forall|j: int| 0 <= j < n ==> a[j] == b[j],
    ensures
        kept_buildings(a, planned, n) == kept_buildings(b, planned, n),
    decreases n,
{
    if n > 0 {
        lemma_kept_prefix(a, b, planned, n - 1);
        assert(a[n - 1] == b[n - 1]);
    }
}

} // verus!
