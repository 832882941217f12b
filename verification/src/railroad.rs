//! The railroad: two tracks running across the map, one near the north
//! edge and one near the south edge, wobbling by a tile with the noise.
//! A track never runs over road, sidewalk or walls; over water or beach it
//! runs on a rail bridge; elsewhere on gravel with a gravel bed beside it.
//! Every track tile is claimed.
use vstd::prelude::*;

use crate::gamemap::{is_water_floor, put_voxel, GameMap, Voxel};
use crate::graphics::{Floor, Props};
use crate::noise::{fraction_scaled, noise2d, noise2d_spec, noise_scaled, wadd64, NoiseSeed};
use crate::streets::{sized, tiles, walled, MAX_STREET_SIDE};
use crate::town::clamp_int;

verus! {

/// Seed of the railroad.
pub open spec fn rail_seed(seed: u64) -> u64 {
    wadd64(seed, 777999)
}

/// Rows of the northern and southern tracks.
pub open spec fn rail_rows(height: int, seed: u64) -> (int, int) {
    (
        clamp_int(10 + fraction_scaled(noise2d_spec(8, 8, rail_seed(seed)), 6), 6, 20),
        clamp_int(height - 10 - fraction_scaled(noise2d_spec(9, 9, rail_seed(seed)), 6), height - 20, height - 6),
    )
}

/// The track's wobble in column `x`: 0 or 1, one and a half times the
/// noise fraction rounded down.
pub open spec fn wobble(x: int, rail_y: int, seed: u64) -> int {
    (3 * noise2d_spec(x as i32, rail_y as i32, rail_seed(seed))) / (2 * 0xFFFF_FFFFint)
}

/// Ground a gravel bed may cover: not a building's floor, river water,
/// road, sidewalk or bridge.
pub open spec fn bed_ok(v: Voxel) -> bool {
    v.props is None && v.floor != Some(Floor::WoodPlanks) && v.floor != Some(Floor::StoneFloor) && v.floor != Some(
        Floor::ShallowWater,
    ) && v.floor != Some(Floor::DeepWater) && v.floor != Some(Floor::DirtRoad) && v.floor != Some(Floor::Sidewalk)
        && v.floor != Some(Floor::Bridge)
}

/// The tiles and claimed tiles after the track's step in column `x`.
pub open spec fn rail_step(
    g: spec_fn(int, int) -> Voxel,
    o: spec_fn(int, int) -> bool,
    h: int,
    seed: u64,
    rail_y: int,
    x: int,
) -> (spec_fn(int, int) -> Voxel, spec_fn(int, int) -> bool) {
    let y = rail_y + wobble(x, rail_y, seed);
    let v = g(x, y);
    if y <= 0 || y >= h - 1 || v.floor == Some(Floor::DirtRoad) || v.floor == Some(Floor::Sidewalk) || walled(v) {
        (g, o)
    } else {
        let o2 = |a: int, c: int| o(a, c) || (a == x && c == y);
        if is_water_floor(v.floor) {
            (
                |a: int, c: int|
                    if a == x && c == y {
                        Voxel { floor: Some(Floor::Bridge), props: Some(Props::RailTrack) }
                    } else {
                        g(a, c)
                    },
                o2,
            )
        } else {
            (
                |a: int, c: int|
                    if a == x && c == y {
                        Voxel { floor: Some(Floor::Gravel), props: Some(Props::RailTrack) }
                    } else if a == x && (c == y - 1 || c == y + 1) && 0 <= c < h && bed_ok(g(a, c)) {
                        Voxel { floor: Some(Floor::Gravel), props: g(a, c).props }
                    } else {
                        g(a, c)
                    },
                o2,
            )
        }
    }
}

/// The tiles and claimed tiles after the track on row `rail_y` has run
/// through columns 4 to `x - 1`.
pub open spec fn track_after(
    g: spec_fn(int, int) -> Voxel,
    o: spec_fn(int, int) -> bool,
    h: int,
    seed: u64,
    rail_y: int,
    x: int,
) -> (spec_fn(int, int) -> Voxel, spec_fn(int, int) -> bool)
    decreases x - 4,
{
    if x <= 4 {
        (g, o)
    } else {
        let prev = track_after(g, o, h, seed, rail_y, x - 1);
        rail_step(prev.0, prev.1, h, seed, rail_y, x - 1)
    }
}

/// The claimed tiles of the map.
pub open spec fn claims(m: &GameMap) -> spec_fn(int, int) -> bool {
    |a: int, c: int| m.occupied(a, c)
}

/// The tiles and claimed tiles after both tracks.
pub open spec fn railroad(m: &GameMap, w: int, h: int, seed: u64) -> (spec_fn(int, int) -> Voxel, spec_fn(int, int) -> bool) {
    let (north, south) = rail_rows(h, seed);
    let first = track_after(tiles(m), claims(m), h, seed, north, w - 4);
    track_after(first.0, first.1, h, seed, south, w - 4)
}

/// The map holds the tiles `t` and the claimed tiles `o`.
pub open spec fn holds(m: &GameMap, t: spec_fn(int, int) -> Voxel, o: spec_fn(int, int) -> bool) -> bool {
    forall|a: int, c: int| m.in_bounds(a, c) ==> #[trigger] m.voxel(a, c) == t(a, c) && m.occupied(a, c) == o(a, c)
}

/// Claims the on-map tile `(x, y)`.
fn claim(map: &mut GameMap, x: i32, y: i32)
    requires
        old(map).wf(),
        old(map).in_bounds(x as int, y as int),
    ensures
        final(map).wf(),
        final(map).width == old(map).width,
        final(map).height == old(map).height,
        final(map).voxels@ == old(map).voxels@,
        final(map).faction_anchors@ == old(map).faction_anchors@,
        forall|a: int, c: int| final(map).in_bounds(a, c) ==> #[trigger] final(map).occupied(a, c) == (old(map).occupied(a, c) || (a == x && c == y)),
{
    map.mark_occupied(x, y, 1, 1);
}

/// Lays one column of the track on row `rail_y` (see `rail_step`).
fn lay_rail_step(map: &mut GameMap, width: i32, height: i32, seed: NoiseSeed, rail_y: i32, x: i32, Ghost(g): Ghost<spec_fn(int, int) -> Voxel>, Ghost(o): Ghost<spec_fn(int, int) -> bool>)
    requires
        sized(old(map), width as int, height as int),
        80 <= width <= MAX_STREET_SIDE,
        80 <= height <= MAX_STREET_SIDE,
        4 <= x < width - 4,
        0 <= rail_y < height,
        holds(old(map), g, o),
    ensures
        sized(final(map), width as int, height as int),
        final(map).faction_anchors@ == old(map).faction_anchors@,
        holds(final(map), rail_step(g, o, height as int, seed, rail_y as int, x as int).0, rail_step(g, o, height as int, seed, rail_y as int, x as int).1),
{
    let rs = seed.wrapping_add(777999);
    let hw = noise2d(x, rail_y, rs) as u64;
    let wob: i32 = if hw * 3 >= 2 * 0xFFFF_FFFFu64 { 1 } else { 0 };
    proof {
        let h = noise2d_spec(x, rail_y, rail_seed(seed));
        assert((x as int) as i32 == x && (rail_y as int) as i32 == rail_y);
        assert(wob == wobble(x as int, rail_y as int, seed)) by {
            if 3 * h >= 2 * 0xFFFF_FFFFint {
                assert((3 * h) / (2 * 0xFFFF_FFFFint) == 1) by (nonlinear_arith)
                    requires
                        2 * 0xFFFF_FFFFint <= 3 * h <= 3 * 0xFFFF_FFFFint,
                ;
            } else {
                assert((3 * h) / (2 * 0xFFFF_FFFFint) == 0) by (nonlinear_arith)
                    requires
                        0 <= 3 * h < 2 * 0xFFFF_FFFFint,
                ;
            }
        }
    }
    let y = rail_y + wob;
    if y <= 0 || y >= height - 1 {
        return;
    }
    let ghost pre = *map;
    let v = map.voxels[y as usize][x as usize];
    proof {
        assert(pre.in_bounds(x as int, y as int));
        assert(pre.voxel(x as int, y as int) == g(x as int, y as int));
        assert(pre.in_bounds(x as int, y - 1) && pre.voxel(x as int, y - 1) == g(x as int, y - 1));
        assert(pre.in_bounds(x as int, y + 1) && pre.voxel(x as int, y + 1) == g(x as int, y + 1));
    }
    let blocked = match v.floor {
        Some(Floor::DirtRoad) | Some(Floor::Sidewalk) => true,
        _ => match v.props {
            Some(p) => p.is_wall(),
            None => false,
        },
    };
    if blocked {
        return;
    }
    let water = match v.floor {
        Some(Floor::ShallowWater) | Some(Floor::DeepWater) | Some(Floor::Beach) | Some(Floor::BeachSand) => true,
        _ => false,
    };
    let ghost step = rail_step(g, o, height as int, seed, rail_y as int, x as int);
    if water {
        put_voxel(map, x, y, Voxel { floor: Some(Floor::Bridge), props: Some(Props::RailTrack) });
        let ghost m1 = *map;
        claim(map, x, y);
        proof {
            assert forall|a: int, c: int| map.in_bounds(a, c) implies #[trigger] map.voxel(a, c) == step.0(a, c) && map.occupied(
                a,
                c,
            ) == step.1(a, c) by {
                assert(m1.in_bounds(a, c) && pre.in_bounds(a, c));
                assert(map.voxel(a, c) == m1.voxel(a, c));
                assert(pre.voxel(a, c) == g(a, c) && pre.occupied(a, c) == o(a, c));
                assert(m1.occupied(a, c) == pre.occupied(a, c));
            }
        }
        return;
    }
    put_voxel(map, x, y, Voxel { floor: Some(Floor::Gravel), props: Some(Props::RailTrack) });
    let ghost m1 = *map;
    claim(map, x, y);
    let ghost m2 = *map;
    let up = map.voxels[(y - 1) as usize][x as usize];
    let up_ok = up.props.is_none() && !match up.floor {
        Some(Floor::WoodPlanks) | Some(Floor::StoneFloor) | Some(Floor::ShallowWater) | Some(Floor::DeepWater) | Some(
            Floor::DirtRoad,
        ) | Some(Floor::Sidewalk) | Some(Floor::Bridge) => true,
        _ => false,
    };
    proof {
        assert(m2.voxel(x as int, y - 1) == m1.voxel(x as int, y - 1));
        assert(m1.in_bounds(x as int, y - 1));
        assert(up == g(x as int, y - 1));
    }
    if up_ok {
        put_voxel(map, x, y - 1, Voxel { floor: Some(Floor::Gravel), props: up.props });
    }
    let ghost m3 = *map;
    let down = map.voxels[(y + 1) as usize][x as usize];
    let down_ok = down.props.is_none() && !match down.floor {
        Some(Floor::WoodPlanks) | Some(Floor::StoneFloor) | Some(Floor::ShallowWater) | Some(Floor::DeepWater) | Some(
            Floor::DirtRoad,
        ) | Some(Floor::Sidewalk) | Some(Floor::Bridge) => true,
        _ => false,
    };
    proof {
        assert(m2.in_bounds(x as int, y + 1) && m1.in_bounds(x as int, y + 1));
        assert(m3.voxel(x as int, y + 1) == m2.voxel(x as int, y + 1));
        assert(m2.voxel(x as int, y + 1) == m1.voxel(x as int, y + 1));
        assert(down == g(x as int, y + 1));
    }
    if down_ok {
        put_voxel(map, x, y + 1, Voxel { floor: Some(Floor::Gravel), props: down.props });
    }
    proof {
        assert forall|a: int, c: int| map.in_bounds(a, c) implies #[trigger] map.voxel(a, c) == step.0(a, c) && map.occupied(
            a,
            c,
        ) == step.1(a, c) by {
            assert(m1.in_bounds(a, c) && pre.in_bounds(a, c) && m2.in_bounds(a, c) && m3.in_bounds(a, c));
            assert(pre.voxel(a, c) == g(a, c) && pre.occupied(a, c) == o(a, c));
            assert(m2.voxel(a, c) == m1.voxel(a, c));
            assert(m1.occupied(a, c) == pre.occupied(a, c));
            assert(map.occupied(a, c) == m2.occupied(a, c));
            assert(m3.occupied(a, c) == m2.occupied(a, c));
        }
    }
}

/// Lays the railroad: skipped on maps under 80 by 80; otherwise the
/// northern and then the southern track (see `rail_step`).
pub fn place_railroad(map: &mut GameMap, width: i32, height: i32, seed: NoiseSeed)
    requires
        sized(old(map), width as int, height as int),
        width <= MAX_STREET_SIDE,
        height <= MAX_STREET_SIDE,
    ensures
        sized(final(map), width as int, height as int),
        final(map).faction_anchors@ == old(map).faction_anchors@,
        width < 80 || height < 80 ==> final(map).voxels@ == old(map).voxels@ && final(map).occupancy@ == old(map).occupancy@,
        width >= 80 && height >= 80 ==> holds(
            final(map),
            railroad(old(map), width as int, height as int, seed).0,
            railroad(old(map), width as int, height as int, seed).1,
        ),
{
    if width < 80 || height < 80 {
        return;
    }
    let ghost m0 = *map;
    let rs = seed.wrapping_add(777999);
    let n = 10 + noise_scaled(8, 8, rs, 6);
    let north = if n < 6 { 6 } else if n > 20 { 20 } else { n };
    let sth = height - 10 - noise_scaled(9, 9, rs, 6);
    let south = if sth < height - 20 { height - 20 } else if sth > height - 6 { height - 6 } else { sth };
    proof {
        assert((north as int, south as int) == rail_rows(height as int, seed));
    }
    let mut r: i32 = 0;
    while r < 2
        invariant
            sized(&*map, width as int, height as int),
            map.faction_anchors@ == m0.faction_anchors@,
            80 <= width <= MAX_STREET_SIDE,
            80 <= height <= MAX_STREET_SIDE,
            0 <= r <= 2,
            (north as int, south as int) == rail_rows(height as int, seed),
            6 <= north <= 20,
            height - 20 <= south <= height - 6,
            r == 0 ==> holds(&*map, tiles(&m0), claims(&m0)),
            r == 1 ==> holds(&*map, track_after(tiles(&m0), claims(&m0), height as int, seed, north as int, width - 4).0, track_after(tiles(&m0), claims(&m0), height as int, seed, north as int, width - 4).1),
            r == 2 ==> holds(&*map, railroad(&m0, width as int, height as int, seed).0, railroad(&m0, width as int, height as int, seed).1),
        decreases 2 - r,
    {
        let rail_y = if r == 0 { north } else { south };
        let ghost start = if r == 0 {
            (tiles(&m0), claims(&m0))
        } else {
            track_after(tiles(&m0), claims(&m0), height as int, seed, north as int, width - 4)
        };
        let mut x: i32 = 4;
        while x < width - 4
            invariant
                sized(&*map, width as int, height as int),
                map.faction_anchors@ == m0.faction_anchors@,
                80 <= width <= MAX_STREET_SIDE,
                80 <= height <= MAX_STREET_SIDE,
                0 <= rail_y < height,
                4 <= x <= width - 4,
                holds(&*map, track_after(start.0, start.1, height as int, seed, rail_y as int, x as int).0, track_after(start.0, start.1, height as int, seed, rail_y as int, x as int).1),
            decreases width - 4 - x,
        {
            let ghost cur = track_after(start.0, start.1, height as int, seed, rail_y as int, x as int);
            lay_rail_step(map, width, height, seed, rail_y, x, Ghost(cur.0), Ghost(cur.1));
            x = x + 1;
        }
        r = r + 1;
    }
}

/// Road and sidewalk tiles are kept by every step of a track.
proof fn lemma_track_keeps_roads(
    g: spec_fn(int, int) -> Voxel,
    o: spec_fn(int, int) -> bool,
    h: int,
    seed: u64,
    rail_y: int,
    x: int,
    a: int,
    c: int,
)
    requires
        g(a, c).floor == Some(Floor::DirtRoad) || g(a, c).floor == Some(Floor::Sidewalk),
    ensures
        track_after(g, o, h, seed, rail_y, x).0(a, c) == g(a, c),
    decreases x - 4,
{
    if x > 4 {
        lemma_track_keeps_roads(g, o, h, seed, rail_y, x - 1, a, c);
    }
}

/// Tracks never run over the streets: every road and sidewalk tile is the
/// same after the railroad as before.
pub proof fn law_railroad_spares_streets(m: &GameMap, w: int, h: int, seed: u64, a: int, c: int)
    requires
        m.voxel(a, c).floor == Some(Floor::DirtRoad) || m.voxel(a, c).floor == Some(Floor::Sidewalk),
    ensures
        railroad(m, w, h, seed).0(a, c) == m.voxel(a, c),
{
    let (north, south) = rail_rows(h, seed);
    let first = track_after(tiles(m), claims(m), h, seed, north, w - 4);
    lemma_track_keeps_roads(tiles(m), claims(m), h, seed, north, w - 4, a, c);
    lemma_track_keeps_roads(first.0, first.1, h, seed, south, w - 4, a, c);
}

} // verus!
