//! The frontier around the town: stone outposts near the map edges and
//! clusters of rock in the open desert. Where each outpost and each rock
//! cluster stands is worked out in floating point by the caller; this
//! module decides, from those spots and the map, what is built.
use vstd::prelude::*;

use crate::gamemap::{is_excluded_floor, same_frame, set_prop, GameMap, Voxel};
use crate::graphics::{Floor, Props};
use crate::grid_vec::GridVec;
use crate::landmarks::{lay_shell, place_props, put_all, shell, site_free, site_is_free, unchanged};
use crate::noise::{fraction_above, fraction_scaled, noise2d_spec, noise_above, noise_scaled, wadd64, NoiseSeed};
use crate::outskirts::put;
use crate::streets::{tiles, MAX_STREET_SIDE};
use crate::structures::stamped;
use crate::town::{buffered, building_small, clamp_int, overlap, Building};

verus! {

/// Side of an outpost.
pub const OUTPOST_SIDE: i32 = 6;

/// The site is free on the tiles `g` of a map with `m`'s frame: it
/// overlaps no building grown by two tiles and has no road, water or
/// beach tile.
pub open spec fn free_on(g: spec_fn(int, int) -> Voxel, m: &GameMap, bs: Seq<Building>, x: int, y: int, w: int, h: int) -> bool {
    &&& !exists|i: int| 0 <= i < bs.len() && {
        let e = buffered(#[trigger] bs[i]);
        overlap(x, y, w, h, e.0, e.1, e.2, e.3)
    }
    &&& !exists|a: int, c: int| x <= a < x + w && y <= c < y + h && m.in_bounds(a, c) && is_excluded_floor(#[trigger] g(a, c).floor)
}

/// Where the outpost drawn at `s` stands: `s` kept within `[8, width - 14]`
/// by `[8, height - 14]`.
pub open spec fn outpost_site(width: int, height: int, s: (i32, i32)) -> (int, int) {
    (clamp_int(s.0 as int, 8, width - 14), clamp_int(s.1 as int, 8, height - 14))
}

/// The door of the outpost at `(ox, oy)`: the middle of its south wall.
pub open spec fn outpost_doors(ox: int, oy: int) -> Seq<(i32, i32)> {
    seq![((ox + 3) as i32, (oy + 5) as i32)]
}

/// The outpost's stores: a barrel, a crate and a gunpowder barrel.
pub open spec fn outpost_props(ox: int, oy: int) -> Seq<(i32, i32, Props)> {
    seq![
        ((ox + 1) as i32, (oy + 1) as i32, Props::Barrel),
        ((ox + 4) as i32, (oy + 1) as i32, Props::Crate),
        ((ox + 3) as i32, (oy + 3) as i32, Props::GunpowderBarrel),
    ]
}

/// The tiles after building an outpost at `(ox, oy)` on `g`: a 6 by 6
/// stone room with stone walls and one door, then its stores.
pub open spec fn outpost_tiles(g: spec_fn(int, int) -> Voxel, m: &GameMap, ox: int, oy: int) -> spec_fn(int, int) -> Voxel {
    put_all(
        shell(g, m, ox, oy, 6, 6, Floor::StoneFloor, Some(Props::StoneWall), outpost_doors(ox, oy)),
        m,
        outpost_props(ox, oy),
    )
}

/// The tiles after the first `k` outposts, each built where its site is
/// free on the tiles left by the ones before.
pub open spec fn outposts_after(
    g: spec_fn(int, int) -> Voxel,
    m: &GameMap,
    width: int,
    height: int,
    bs: Seq<Building>,
    sites: Seq<(i32, i32)>,
    k: int,
) -> spec_fn(int, int) -> Voxel
    decreases k,
{
    if k <= 0 {
        g
    } else {
        let prev = outposts_after(g, m, width, height, bs, sites, k - 1);
        let (ox, oy) = outpost_site(width, height, sites[k - 1]);
        if free_on(prev, m, bs, ox, oy, 6, 6) {
            outpost_tiles(prev, m, ox, oy)
        } else {
            prev
        }
    }
}

/// Builds the outposts that guard the outskirts, one for each spot in
/// `sites` (drawn around the map centre by the caller): each is moved
/// within `[8, width - 14]` by `[8, height - 14]` and built as a 6 by 6
/// stone room with a door in its south wall, a barrel, a crate and a
/// gunpowder barrel, unless its site overlaps a building or holds road,
/// water or beach. Nothing is built on maps under 30 by 30.
pub fn place_outposts(map: &mut GameMap, width: i32, height: i32, buildings: &[Building], sites: &[(i32, i32)])
    requires
        old(map).wf(),
        width <= MAX_STREET_SIDE,
        height <= MAX_STREET_SIDE,
        forall|i: int| 0 <= i < buildings@.len() ==> building_small(#[trigger] buildings@[i]),
    ensures
        if width < 30 || height < 30 {
            unchanged(old(map), final(map))
        } else {
            stamped(
                old(map),
                final(map),
                outposts_after(tiles(old(map)), old(map), width as int, height as int, buildings@, sites@, sites@.len() as int),
            )
        },
{
    if width < 30 || height < 30 {
        return;
    }
    let ghost m0 = *map;
    let mut k: usize = 0;
    while k < sites.len()
        invariant
            m0.wf(),
            30 <= width <= MAX_STREET_SIDE,
            30 <= height <= MAX_STREET_SIDE,
            forall|i: int| 0 <= i < buildings@.len() ==> building_small(#[trigger] buildings@[i]),
            k <= sites@.len(),
            stamped(&m0, &*map, outposts_after(tiles(&m0), &m0, width as int, height as int, buildings@, sites@, k as int)),
        decreases sites@.len() - k,
    {
        let ghost prev = outposts_after(tiles(&m0), &m0, width as int, height as int, buildings@, sites@, k as int);
        let (sx, sy) = sites[k];
        let ox = if sx < 8 { 8 } else if sx > width - 14 { width - 14 } else { sx };
        let oy = if sy < 8 { 8 } else if sy > height - 14 { height - 14 } else { sy };
        proof {
            assert((ox as int, oy as int) == outpost_site(width as int, height as int, sites@[k as int]));
            assert(site_free(&*map, buildings@, ox as int, oy as int, 6, 6) == free_on(prev, &m0, buildings@, ox as int, oy as int, 6, 6)) by {
                assert forall|a: int, c: int| map.in_bounds(a, c) implies #[trigger] map.excluded_at(a, c) == is_excluded_floor(
                    prev(a, c).floor,
                ) by {}
                if site_free(&*map, buildings@, ox as int, oy as int, 6, 6) {
                    assert forall|a: int, c: int| !(ox <= a < ox + 6 && oy <= c < oy + 6 && m0.in_bounds(a, c) && is_excluded_floor(
                        #[trigger] prev(a, c).floor,
                    )) by {
                        if ox <= a < ox + 6 && oy <= c < oy + 6 && m0.in_bounds(a, c) {
                            assert(!map.excluded_at(a, c));
                        }
                    }
                }
            }
        }
        if site_is_free(map, buildings, ox, oy, 6, 6) {
            let ghost pre = *map;
            let doors = vec![(ox + 3, oy + 5)];
            let ops = vec![(ox + 1, oy + 1, Props::Barrel), (ox + 4, oy + 1, Props::Crate), (ox + 3, oy + 3, Props::GunpowderBarrel)];
            lay_shell(map, ox, oy, 6, 6, Floor::StoneFloor, Some(Props::StoneWall), &doors);
            let ghost shelled = shell(prev, &m0, ox as int, oy as int, 6, 6, Floor::StoneFloor, Some(Props::StoneWall), doors@);
            proof {
                assert forall|a: int, c: int| map.in_bounds(a, c) implies #[trigger] map.voxel(a, c) == shelled(a, c) by {
                    assert(pre.in_bounds(a, c));
                }
            }
            place_props(map, &ops, Ghost(shelled), Ghost(m0));
            proof {
                assert(doors@ =~= outpost_doors(ox as int, oy as int));
                assert(ops@ =~= outpost_props(ox as int, oy as int));
            }
        }
        k = k + 1;
    }
}

/// Ground no rock is put on: planks, stone, water, road, bridge and
/// beach sand.
pub open spec fn rock_blocked(f: Option<Floor>) -> bool {
    f == Some(Floor::WoodPlanks) || f == Some(Floor::StoneFloor) || f == Some(Floor::ShallowWater) || f == Some(
        Floor::DeepWater,
    ) || f == Some(Floor::DirtRoad) || f == Some(Floor::Bridge) || f == Some(Floor::BeachSand)
}

/// Seed of the rock formations.
pub open spec fn rock_seed(seed: u64) -> u64 {
    wadd64(seed, 282828)
}

/// The tile of the cluster at `(fx, fy)` looked at `j`-th: the 7 by 7
/// square around it, row by row.
pub open spec fn cluster_cell(fx: int, fy: int, j: int) -> (int, int) {
    (fx + j % 7 - 3, fy + j / 7 - 3)
}

/// The tiles, and the count of rocks laid, after the first `k` cells of
/// the cluster at `(fx, fy)` that wants `size` rocks. Once `size` is
/// reached the rest is skipped. A cell where the noise is above 0.4 is
/// skipped, and so is an on-map cell that holds a prop or whose ground is
/// blocked; at any other cell a rock is set (where `set_prop` accepts it)
/// and counted.
pub open spec fn cluster_after(
    g: spec_fn(int, int) -> Voxel,
    m: &GameMap,
    fx: int,
    fy: int,
    size: int,
    rs: u64,
    k: int,
) -> (spec_fn(int, int) -> Voxel, int)
    decreases k,
{
    if k <= 0 {
        (g, 0)
    } else {
        let (t, placed) = cluster_after(g, m, fx, fy, size, rs, k - 1);
        let (a, c) = cluster_cell(fx, fy, k - 1);
        if placed >= size {
            (t, placed)
        } else if fraction_above(noise2d_spec(a as i32, c as i32, wadd64(rs, 222)), 2, 5) {
            (t, placed)
        } else if m.in_bounds(a, c) && (t(a, c).props is Some || rock_blocked(t(a, c).floor)) {
            (t, placed)
        } else {
            (put(t, m, a, c, Props::Rock), placed + 1)
        }
    }
}

/// How many rocks the `i`-th formation wants: 5 plus the noise scaled to
/// `[0, 8]`.
pub open spec fn cluster_size(rs: u64, i: int) -> int {
    5 + fraction_scaled(noise2d_spec(i as i32, i as i32, wadd64(rs, 111)), 8)
}

/// The spot `(fx, fy)` lies within a quarter of the map's width of the
/// centre.
pub open spec fn near_centre(width: int, height: int, fx: int, fy: int) -> bool {
    16 * ((fx - width / 2) * (fx - width / 2) + (fy - height / 2) * (fy - height / 2)) < width * width
}

/// The tiles after the first `k` formations: each one near the centre is
/// skipped; the others grow their cluster on the tiles left by the ones
/// before.
pub open spec fn rocks_after(
    g: spec_fn(int, int) -> Voxel,
    m: &GameMap,
    width: int,
    height: int,
    seed: u64,
    spots: Seq<(i32, i32)>,
    k: int,
) -> spec_fn(int, int) -> Voxel
    decreases k,
{
    if k <= 0 {
        g
    } else {
        let prev = rocks_after(g, m, width, height, seed, spots, k - 1);
        let (fx, fy) = (spots[k - 1].0 as int, spots[k - 1].1 as int);
        if near_centre(width, height, fx, fy) {
            prev
        } else {
            cluster_after(prev, m, fx, fy, cluster_size(rock_seed(seed), k - 1), rock_seed(seed), 49).0
        }
    }
}

/// Whether rocks never go on `f`.
fn is_rock_blocked(f: Option<Floor>) -> (r: bool)
    ensures
        r == rock_blocked(f),
{
    match f {
        Some(Floor::WoodPlanks) | Some(Floor::StoneFloor) | Some(Floor::ShallowWater) | Some(Floor::DeepWater)
        | Some(Floor::DirtRoad) | Some(Floor::Bridge) | Some(Floor::BeachSand) => true,
        _ => false,
    }
}

/// Grows one rock cluster (see `cluster_after`).
fn grow_cluster(map: &mut GameMap, fx: i32, fy: i32, size: i32, rs: u64, Ghost(g): Ghost<spec_fn(int, int) -> Voxel>, Ghost(m0): Ghost<GameMap>)
    requires
        same_frame(old(map), &m0),
        -0x100_0000 <= fx <= 0x100_0000,
        -0x100_0000 <= fy <= 0x100_0000,
        forall|a: int, c: int| old(map).in_bounds(a, c) ==> #[trigger] old(map).voxel(a, c) == g(a, c),
    ensures
        same_frame(final(map), &m0),
        forall|a: int, c: int|
            final(map).in_bounds(a, c) ==> #[trigger] final(map).voxel(a, c) == cluster_after(g, &m0, fx as int, fy as int, size as int, rs, 49).0(a, c),
{
    let rs2 = rs.wrapping_add(222);
    let mut placed: i32 = 0;
    let mut j: i32 = 0;
    while j < 49
        invariant
            same_frame(&*map, &m0),
            -0x100_0000 <= fx <= 0x100_0000,
            -0x100_0000 <= fy <= 0x100_0000,
            0 <= j <= 49,
            rs2 == wadd64(rs, 222),
            placed == cluster_after(g, &m0, fx as int, fy as int, size as int, rs, j as int).1,
            0 <= placed <= j,
            forall|a: int, c: int|
                map.in_bounds(a, c) ==> #[trigger] map.voxel(a, c) == cluster_after(g, &m0, fx as int, fy as int, size as int, rs, j as int).0(a, c),
        decreases 49 - j,
    {
        let ghost t = cluster_after(g, &m0, fx as int, fy as int, size as int, rs, j as int).0;
        let ghost pre = *map;
        let a = fx + j % 7 - 3;
        let c = fy + j / 7 - 3;
        proof {
            assert((a as int, c as int) == cluster_cell(fx as int, fy as int, j as int));
        }
        if placed < size && !noise_above(a, c, rs2, 2, 5) {
            let pos = GridVec { x: a, y: c };
            let skip = match map.get_voxel_at(&pos) {
                Some(v) => v.props.is_some() || is_rock_blocked(v.floor),
                None => false,
            };
            if !skip {
                set_prop(map, a, c, Props::Rock);
                placed = placed + 1;
                proof {
                    assert forall|x: int, y: int| map.in_bounds(x, y) implies #[trigger] map.voxel(x, y) == put(
                        t,
                        &m0,
                        a as int,
                        c as int,
                        Props::Rock,
                    )(x, y) by {
                        assert(pre.in_bounds(x, y));
                    }
                }
            }
        }
        j = j + 1;
    }
}

/// Grows the natural rock formations of the outskirts, one for each spot
/// in `spots` (drawn away from the centre by the caller): a spot within a
/// quarter of the map's width of the centre is skipped; around any other
/// a cluster of 5 to 13 rocks grows in the 7 by 7 square, on cells where
/// the noise is at most 0.4 and that hold no prop and no planks, stone,
/// water, road, bridge or beach sand. Nothing grows on maps under 80 by
/// 80.
pub fn place_rock_formations(map: &mut GameMap, width: i32, height: i32, seed: NoiseSeed, spots: &[(i32, i32)])
    requires
        old(map).wf(),
        width <= MAX_STREET_SIDE,
        height <= MAX_STREET_SIDE,
        spots@.len() <= 1000,
        forall|i: int| 0 <= i < spots@.len() ==> -0x100_0000 <= (#[trigger] spots@[i]).0 <= 0x100_0000 && -0x100_0000 <= spots@[i].1 <= 0x100_0000,
    ensures
        if width < 80 || height < 80 {
            unchanged(old(map), final(map))
        } else {
            stamped(old(map), final(map), rocks_after(tiles(old(map)), old(map), width as int, height as int, seed, spots@, spots@.len() as int))
        },
{
    if width < 80 || height < 80 {
        return;
    }
    let ghost m0 = *map;
    let rs = seed.wrapping_add(282828);
    let rs1 = rs.wrapping_add(111);
    let mut k: usize = 0;
    while k < spots.len()
        invariant
            m0.wf(),
            80 <= width <= MAX_STREET_SIDE,
            80 <= height <= MAX_STREET_SIDE,
            spots@.len() <= 1000,
            forall|i: int| 0 <= i < spots@.len() ==> -0x100_0000 <= (#[trigger] spots@[i]).0 <= 0x100_0000 && -0x100_0000 <= spots@[i].1 <= 0x100_0000,
            k <= spots@.len(),
            rs == rock_seed(seed),
            rs1 == wadd64(rock_seed(seed), 111),
            stamped(&m0, &*map, rocks_after(tiles(&m0), &m0, width as int, height as int, seed, spots@, k as int)),
        decreases spots@.len() - k,
    {
        let ghost prev = rocks_after(tiles(&m0), &m0, width as int, height as int, seed, spots@, k as int);
        let (fx, fy) = spots[k];
        proof {
            assert(-0x100_0000 <= spots@[k as int].0 <= 0x100_0000 && -0x100_0000 <= spots@[k as int].1 <= 0x100_0000);
        }
        let dx: i64 = fx as i64 - (width / 2) as i64;
        let dy: i64 = fy as i64 - (height / 2) as i64;
        proof {
            assert(0 <= dx * dx <= 0x200_0000 * 0x200_0000) by (nonlinear_arith)
                requires -0x200_0000 <= dx <= 0x200_0000;
            assert(0 <= dy * dy <= 0x200_0000 * 0x200_0000) by (nonlinear_arith)
                requires -0x200_0000 <= dy <= 0x200_0000;
            assert(0 <= width * width <= 100_000 * 100_000) by (nonlinear_arith)
                requires 0 <= width <= 100_000;
        }
        let near = 16 * (dx * dx + dy * dy) < width as i64 * width as i64;
        if !near {
            let ki = k as i32;
            let size = 5 + noise_scaled(ki, ki, rs1, 8);
            grow_cluster(map, fx, fy, size, rs, Ghost(prev), Ghost(m0));
        }
        k = k + 1;
    }
}

} // verus!
