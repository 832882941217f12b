//! The town's outskirts: scattered clutter (dead trees, old fences,
//! abandoned camps, broken wagons, scrub) and a few ruined shacks, each
//! with a short dirt path wandering toward the town, all kept outside the
//! town's bounding box.
//!
//! Positions scale the noise fraction by the map's sides and round down
//! exactly (see `noise`); every choice is reproducible from the seed.
use vstd::prelude::*;

use crate::gamemap::{prop_allowed, put_voxel, same_frame, set_prop, GameMap, Voxel};
use crate::graphics::{Floor, Props};
use crate::grid_vec::GridVec;
use crate::noise::{fraction_below, fraction_scaled, noise2d_spec, noise_below, noise_scaled, wadd64, NoiseSeed};
use crate::rules::half_toward_zero;
use crate::streets::{paved, tiles, walled, MAX_STREET_SIDE};
use crate::town::{building_small, clamp_int, Building};
use crate::world_check::is_river_floor;

verus! {

/// Smallest of a non-empty sequence.
pub open spec fn seq_min(s: Seq<int>) -> int
    decreases s.len(),
{
    if s.len() <= 1 {
        s[0]
    } else {
        let m = seq_min(s.drop_last());
        if s.last() < m {
            s.last()
        } else {
            m
        }
    }
}

/// Largest of a non-empty sequence.
pub open spec fn seq_max(s: Seq<int>) -> int
    decreases s.len(),
{
    if s.len() <= 1 {
        s[0]
    } else {
        let m = seq_max(s.drop_last());
        if s.last() > m {
            s.last()
        } else {
            m
        }
    }
}

/// The town's bounding box `(min x, min y, max x, max y)`, the maxima
/// taken over the buildings' far edges.
pub open spec fn town_box(bs: Seq<Building>) -> (int, int, int, int) {
    (
        seq_min(bs.map_values(|b: Building| b.x as int)),
        seq_min(bs.map_values(|b: Building| b.y as int)),
        seq_max(bs.map_values(|b: Building| b.x + b.w)),
        seq_max(bs.map_values(|b: Building| b.y + b.h)),
    )
}

/// `(x, y)` lies in the town's box grown by `margin` on every side.
pub open spec fn near_town(tb: (int, int, int, int), margin: int, x: int, y: int) -> bool {
    tb.0 - margin <= x <= tb.2 + margin && tb.1 - margin <= y <= tb.3 + margin
}

/// Whether `set_prop` may put a prop on `(x, y)` when the tiles are `g`
/// (the occupancy of `m` unchanged).
pub open spec fn prop_fits(g: spec_fn(int, int) -> Voxel, m: &GameMap, x: int, y: int) -> bool {
    &&& m.in_bounds(x, y)
    &&& !m.occupied(x, y)
    &&& g(x, y).props != Some(Props::Wall)
    &&& g(x, y).props != Some(Props::StoneWall)
    &&& !(g(x, y).floor == Some(Floor::DirtRoad) || g(x, y).floor == Some(Floor::BeachSand) || g(x, y).floor == Some(
        Floor::ShallowWater,
    ) || g(x, y).floor == Some(Floor::DeepWater) || g(x, y).floor == Some(Floor::Bridge))
}

/// The tiles after `set_prop(x, y, p)`.
pub open spec fn put(g: spec_fn(int, int) -> Voxel, m: &GameMap, x: int, y: int, p: Props) -> spec_fn(int, int) -> Voxel {
    |a: int, c: int|
        if a == x && c == y && prop_fits(g, m, a, c) {
            Voxel { floor: g(a, c).floor, props: Some(p) }
        } else {
            g(a, c)
        }
}

/// Seed of the outskirts.
pub open spec fn outskirts_seed(seed: u64) -> u64 {
    wadd64(seed, 121212)
}

/// Seed of the shacks.
pub open spec fn shack_seed(seed: u64) -> u64 {
    wadd64(outskirts_seed(seed), 333)
}

/// Number of scattered clutter spots: 12 to 20.
pub open spec fn scatter_count(seed: u64) -> int {
    12 + fraction_scaled(noise2d_spec(0, 0, outskirts_seed(seed)), 8)
}

/// Number of shacks tried: 4 to 8.
pub open spec fn shack_count(seed: u64) -> int {
    4 + fraction_scaled(noise2d_spec(1, 1, shack_seed(seed)), 4)
}

/// Clutter spot `i`: the noise scaled to the map, kept four tiles inside
/// the left and top edges and six inside the right and bottom ones.
pub open spec fn scatter_spot(w: int, h: int, seed: u64, i: int) -> (int, int) {
    (
        clamp_int(fraction_scaled(noise2d_spec(i as i32, 0, outskirts_seed(seed)), w), 4, w - 6),
        clamp_int(fraction_scaled(noise2d_spec(0, i as i32, outskirts_seed(seed)), h), 4, h - 6),
    )
}

/// The clutter of spot `i` placed on the tiles `g`: nothing inside the
/// town's box grown by five, off the map, on a prop, or on water or a
/// bridge; otherwise, by the noise at `(i, i)`: a dead tree (under 1/4),
/// a four-post fence line (under 9/20), a camp of two rocks and a barrel
/// (under 13/20), a broken wagon of two crates (under 4/5), or scrub.
pub open spec fn scatter_item(g: spec_fn(int, int) -> Voxel, m: &GameMap, w: int, h: int, seed: u64, tb: (int, int, int, int), i: int) -> spec_fn(
    int,
    int,
) -> Voxel {
    let (x, y) = scatter_spot(w, h, seed, i);
    if near_town(tb, 5, x, y) || !m.in_bounds(x, y) || g(x, y).props is Some || is_river_floor(g(x, y).floor) || g(
        x,
        y,
    ).floor == Some(Floor::Bridge) {
        g
    } else {
        let pick = noise2d_spec(i as i32, i as i32, wadd64(outskirts_seed(seed), 111));
        if fraction_below(pick, 1, 4) {
            put(g, m, x, y, Props::DeadTree)
        } else if fraction_below(pick, 9, 20) {
            put(put(put(put(g, m, x, y, Props::Fence), m, x + 1, y, Props::Fence), m, x + 2, y, Props::Fence), m, x + 3, y, Props::Fence)
        } else if fraction_below(pick, 13, 20) {
            put(put(put(g, m, x, y, Props::Rock), m, x + 1, y, Props::Rock), m, x, y + 1, Props::Barrel)
        } else if fraction_below(pick, 4, 5) {
            put(put(g, m, x, y, Props::Crate), m, x + 1, y, Props::Crate)
        } else {
            put(put(g, m, x, y, Props::Bush), m, x + 1, y + 1, Props::Bush)
        }
    }
}

/// The tiles after the first `k` clutter spots.
pub open spec fn scatter_after(g: spec_fn(int, int) -> Voxel, m: &GameMap, w: int, h: int, seed: u64, tb: (int, int, int, int), k: nat) -> spec_fn(
    int,
    int,
) -> Voxel
    decreases k,
{
    if k == 0 {
        g
    } else {
        scatter_item(scatter_after(g, m, w, h, seed, tb, (k - 1) as nat), m, w, h, seed, tb, k - 1)
    }
}

/// `set_prop` on a map whose tiles are `g` and whose frame is `m0`'s.
fn put_prop(
    map: &mut GameMap,
    x: i32,
    y: i32,
    p: Props,
    Ghost(g): Ghost<spec_fn(int, int) -> Voxel>,
    Ghost(m0): Ghost<GameMap>,
)
    requires
        same_frame(old(map), &m0),
        forall|a: int, c: int| old(map).in_bounds(a, c) ==> #[trigger] old(map).voxel(a, c) == g(a, c),
    ensures
        same_frame(final(map), &m0),
        forall|a: int, c: int| final(map).in_bounds(a, c) ==> #[trigger] final(map).voxel(a, c) == put(g, &m0, x as int, y as int, p)(a, c),
{
    let ghost pre = *map;
    set_prop(map, x, y, p);
    proof {
        assert forall|a: int, c: int| map.in_bounds(a, c) implies #[trigger] map.voxel(a, c) == put(g, &m0, x as int, y as int, p)(a, c) by {
            assert(pre.in_bounds(a, c));
            if a == x && c == y {
                assert(prop_allowed(&pre, a, c) == prop_fits(g, &m0, a, c));
            }
        }
    }
}

/// The town's bounding box (see `town_box`).
fn town_bounds(bs: &[Building]) -> (r: (i32, i32, i32, i32))
    requires
        bs@.len() >= 1,
        forall|i: int| 0 <= i < bs@.len() ==> building_small(#[trigger] bs@[i]),
    ensures
        r.0 == town_box(bs@).0,
        r.1 == town_box(bs@).1,
        r.2 == town_box(bs@).2,
        r.3 == town_box(bs@).3,
{
    let b0 = bs[0];
    proof {
        assert(building_small(bs@[0]));
    }
    let mut r = (b0.x, b0.y, b0.x + b0.w, b0.y + b0.h);
    let mut i: usize = 1;
    proof {
        assert(bs@.take(1).map_values(|b: Building| b.x as int) =~= seq![b0.x as int]);
        assert(bs@.take(1).map_values(|b: Building| b.y as int) =~= seq![b0.y as int]);
        assert(bs@.take(1).map_values(|b: Building| b.x + b.w) =~= seq![b0.x + b0.w]);
        assert(bs@.take(1).map_values(|b: Building| b.y + b.h) =~= seq![b0.y + b0.h]);
    }
    while i < bs.len()
        invariant
            1 <= i <= bs@.len(),
            forall|k: int| 0 <= k < bs@.len() ==> building_small(#[trigger] bs@[k]),
            r.0 == seq_min(bs@.take(i as int).map_values(|b: Building| b.x as int)),
            r.1 == seq_min(bs@.take(i as int).map_values(|b: Building| b.y as int)),
            r.2 == seq_max(bs@.take(i as int).map_values(|b: Building| b.x + b.w)),
            r.3 == seq_max(bs@.take(i as int).map_values(|b: Building| b.y + b.h)),
        decreases bs@.len() - i,
    {
        let b = bs[i];
        proof {
            assert(building_small(bs@[i as int]));
            let t = bs@.take(i as int);
            let t1 = bs@.take(i + 1);
            assert(t1.map_values(|b: Building| b.x as int).drop_last() =~= t.map_values(|b: Building| b.x as int));
            assert(t1.map_values(|b: Building| b.y as int).drop_last() =~= t.map_values(|b: Building| b.y as int));
            assert(t1.map_values(|b: Building| b.x + b.w).drop_last() =~= t.map_values(|b: Building| b.x + b.w));
            assert(t1.map_values(|b: Building| b.y + b.h).drop_last() =~= t.map_values(|b: Building| b.y + b.h));
        }
        let x0 = if b.x < r.0 { b.x } else { r.0 };
        let y0 = if b.y < r.1 { b.y } else { r.1 };
        let x1 = if b.x + b.w > r.2 { b.x + b.w } else { r.2 };
        let y1 = if b.y + b.h > r.3 { b.y + b.h } else { r.3 };
        r = (x0, y0, x1, y1);
        i = i + 1;
    }
    proof {
        assert(bs@.take(bs@.len() as int) =~= bs@);
    }
    r
}

/// Places the clutter of spot `i` (see `scatter_item`).
fn place_scatter(
    map: &mut GameMap,
    width: i32,
    height: i32,
    seed: NoiseSeed,
    tb: (i32, i32, i32, i32),
    i: i32,
    Ghost(g): Ghost<spec_fn(int, int) -> Voxel>,
    Ghost(m0): Ghost<GameMap>,
)
    requires
        same_frame(old(map), &m0),
        forall|a: int, c: int| old(map).in_bounds(a, c) ==> #[trigger] old(map).voxel(a, c) == g(a, c),
        10 <= width <= MAX_STREET_SIDE,
        10 <= height <= MAX_STREET_SIDE,
        0 <= i,
        -0x200_0000 <= tb.0 <= 0x200_0000,
        -0x200_0000 <= tb.1 <= 0x200_0000,
        -0x200_0000 <= tb.2 <= 0x200_0000,
        -0x200_0000 <= tb.3 <= 0x200_0000,
    ensures
        same_frame(final(map), &m0),
        forall|a: int, c: int|
            final(map).in_bounds(a, c) ==> #[trigger] final(map).voxel(a, c) == scatter_item(
                g,
                &m0,
                width as int,
                height as int,
                seed,
                (tb.0 as int, tb.1 as int, tb.2 as int, tb.3 as int),
                i as int,
            )(a, c),
{
    let ts = seed.wrapping_add(121212);
    let fx = noise_scaled(i, 0, ts, width as u64);
    let fy = noise_scaled(0, i, ts, height as u64);
    let x = if fx < 4 { 4 } else if fx > width - 6 { width - 6 } else { fx };
    let y = if fy < 4 { 4 } else if fy > height - 6 { height - 6 } else { fy };
    let ghost tbi = (tb.0 as int, tb.1 as int, tb.2 as int, tb.3 as int);
    proof {
        assert((i as int) as i32 == i);
        assert((x as int, y as int) == scatter_spot(width as int, height as int, seed, i as int));
    }
    if x >= tb.0 - 5 && x <= tb.2 + 5 && y >= tb.1 - 5 && y <= tb.3 + 5 {
        return;
    }
    let pos = GridVec::new(x, y);
    match map.get_voxel_at(&pos) {
        Some(v) => {
            if v.props.is_some() {
                return;
            }
            match v.floor {
                Some(Floor::ShallowWater) | Some(Floor::DeepWater) | Some(Floor::Bridge) => {
                    return;
                },
                _ => {},
            }
        },
        None => {
            return;
        },
    }
    let ps = ts.wrapping_add(111);
    if noise_below(i, i, ps, 1, 4) {
        put_prop(map, x, y, Props::DeadTree, Ghost(g), Ghost(m0));
    } else if noise_below(i, i, ps, 9, 20) {
        let ghost g1 = put(g, &m0, x as int, y as int, Props::Fence);
        let ghost g2 = put(g1, &m0, x + 1, y as int, Props::Fence);
        let ghost g3 = put(g2, &m0, x + 2, y as int, Props::Fence);
        put_prop(map, x, y, Props::Fence, Ghost(g), Ghost(m0));
        put_prop(map, x + 1, y, Props::Fence, Ghost(g1), Ghost(m0));
        put_prop(map, x + 2, y, Props::Fence, Ghost(g2), Ghost(m0));
        put_prop(map, x + 3, y, Props::Fence, Ghost(g3), Ghost(m0));
    } else if noise_below(i, i, ps, 13, 20) {
        let ghost g1 = put(g, &m0, x as int, y as int, Props::Rock);
        let ghost g2 = put(g1, &m0, x + 1, y as int, Props::Rock);
        put_prop(map, x, y, Props::Rock, Ghost(g), Ghost(m0));
        put_prop(map, x + 1, y, Props::Rock, Ghost(g1), Ghost(m0));
        put_prop(map, x, y + 1, Props::Barrel, Ghost(g2), Ghost(m0));
    } else if noise_below(i, i, ps, 4, 5) {
        let ghost g1 = put(g, &m0, x as int, y as int, Props::Crate);
        put_prop(map, x, y, Props::Crate, Ghost(g), Ghost(m0));
        put_prop(map, x + 1, y, Props::Crate, Ghost(g1), Ghost(m0));
    } else {
        let ghost g1 = put(g, &m0, x as int, y as int, Props::Bush);
        put_prop(map, x, y, Props::Bush, Ghost(g), Ghost(m0));
        put_prop(map, x + 1, y + 1, Props::Bush, Ghost(g1), Ghost(m0));
    }
}

/// Shack `i`'s corner: the noise scaled to the map, kept eight tiles
/// inside the left and top edges and twelve inside the right and bottom
/// ones.
pub open spec fn shack_spot(w: int, h: int, seed: u64, i: int) -> (int, int) {
    (
        clamp_int(fraction_scaled(noise2d_spec(i as i32, 2, shack_seed(seed)), w), 8, w - 12),
        clamp_int(fraction_scaled(noise2d_spec(2, i as i32, shack_seed(seed)), h), 8, h - 12),
    )
}

/// Side of a shack.
pub open spec fn shack_side() -> int {
    4
}

/// The tiles after raising ruined shack `i` with its corner at
/// `(sx, sy)`: every map tile of the 4 by 4 square that is not river water
/// gets a plank floor; its border (but the door in the middle of the
/// bottom edge) keeps a wall where the noise at the tile is under 7/10.
pub open spec fn shack_walls(g: spec_fn(int, int) -> Voxel, m: &GameMap, sx: int, sy: int, seed: u64, i: int) -> spec_fn(
    int,
    int,
) -> Voxel {
    |a: int, c: int|
        if sx <= a < sx + 4 && sy <= c < sy + 4 && m.in_bounds(a, c) && !is_river_floor(g(a, c).floor) {
            let border = a == sx || a == sx + 3 || c == sy || c == sy + 3;
            let door = c == sy + 3 && a == sx + 2;
            if border && !door && fraction_below(noise2d_spec(a as i32, c as i32, wadd64(shack_seed(seed), i as u64)), 7, 10) {
                Voxel { floor: Some(Floor::WoodPlanks), props: Some(Props::Wall) }
            } else {
                paved(Floor::WoodPlanks)
            }
        } else {
            g(a, c)
        }
}

/// `1` when `target` lies beyond `from`, else `-1`.
pub open spec fn toward(target: int, from: int) -> int {
    if target > from {
        1
    } else {
        -1
    }
}

/// Position after `k` steps of the path from the door of the shack at
/// `(sx, sy)`: each step moves one tile toward the town's centre,
/// sideways where the noise at the current tile is under 1/2, else up or
/// down.
pub open spec fn walk(sx: int, sy: int, tb: (int, int, int, int), seed: u64, k: nat) -> (int, int)
    decreases k,
{
    if k == 0 {
        (sx + 2, sy + 4)
    } else {
        let p = walk(sx, sy, tb, seed, (k - 1) as nat);
        if fraction_below(noise2d_spec(p.0 as i32, p.1 as i32, wadd64(shack_seed(seed), 777)), 1, 2) {
            (p.0 + toward(half_toward_zero(tb.0 + tb.2), sx + 2), p.1)
        } else {
            (p.0, p.1 + toward(half_toward_zero(tb.1 + tb.3), sy + 4))
        }
    }
}

/// `p` is inside the map's one-tile border.
pub open spec fn inside(w: int, h: int, p: (int, int)) -> bool {
    0 < p.0 < w - 1 && 0 < p.1 < h - 1
}

/// The path's first `k + 1` positions all lie inside the border.
pub open spec fn walk_inside(w: int, h: int, sx: int, sy: int, tb: (int, int, int, int), seed: u64, k: nat) -> bool
    decreases k,
{
    inside(w, h, walk(sx, sy, tb, seed, k)) && (k == 0 || walk_inside(w, h, sx, sy, tb, seed, (k - 1) as nat))
}

/// The tiles after treading the path onto `p`: dirt, unless off the map,
/// walled or river water.
pub open spec fn tread(g: spec_fn(int, int) -> Voxel, m: &GameMap, p: (int, int)) -> spec_fn(int, int) -> Voxel {
    |a: int, c: int|
        if a == p.0 && c == p.1 && m.in_bounds(a, c) && !walled(g(a, c)) && !is_river_floor(g(a, c).floor) {
            paved(Floor::Dirt)
        } else {
            g(a, c)
        }
}

/// The tiles after the first `k` steps of the path (it stops at the
/// first position outside the border).
pub open spec fn path_after(
    g: spec_fn(int, int) -> Voxel,
    m: &GameMap,
    w: int,
    h: int,
    sx: int,
    sy: int,
    tb: (int, int, int, int),
    seed: u64,
    k: nat,
) -> spec_fn(int, int) -> Voxel
    decreases k,
{
    if k == 0 {
        g
    } else {
        let prev = path_after(g, m, w, h, sx, sy, tb, seed, (k - 1) as nat);
        if walk_inside(w, h, sx, sy, tb, seed, (k - 1) as nat) {
            tread(prev, m, walk(sx, sy, tb, seed, (k - 1) as nat))
        } else {
            prev
        }
    }
}

/// Number of steps of a shack's path.
pub open spec fn path_length() -> nat {
    15
}

/// The tiles after shack `i`: nothing inside the town's box grown by ten,
/// off the map, on river water, or too near the right or bottom edge;
/// otherwise the ruined shack and then its path.
pub open spec fn shack_item(g: spec_fn(int, int) -> Voxel, m: &GameMap, w: int, h: int, seed: u64, tb: (int, int, int, int), i: int) -> spec_fn(
    int,
    int,
) -> Voxel {
    let (sx, sy) = shack_spot(w, h, seed, i);
    if near_town(tb, 10, sx, sy) || !m.in_bounds(sx, sy) || is_river_floor(g(sx, sy).floor) || sx + 4 >= w - 1 || sy + 4
        >= h - 1 {
        g
    } else {
        path_after(shack_walls(g, m, sx, sy, seed, i), m, w, h, sx, sy, tb, seed, path_length())
    }
}

/// The tiles after the first `k` shacks.
pub open spec fn shacks_after(g: spec_fn(int, int) -> Voxel, m: &GameMap, w: int, h: int, seed: u64, tb: (int, int, int, int), k: nat) -> spec_fn(
    int,
    int,
) -> Voxel
    decreases k,
{
    if k == 0 {
        g
    } else {
        shack_item(shacks_after(g, m, w, h, seed, tb, (k - 1) as nat), m, w, h, seed, tb, k - 1)
    }
}

/// Once the path has left the border it changes nothing more.
proof fn lemma_path_stops(
    g: spec_fn(int, int) -> Voxel,
    m: &GameMap,
    w: int,
    h: int,
    sx: int,
    sy: int,
    tb: (int, int, int, int),
    seed: u64,
    k: nat,
    j: nat,
)
    requires
        k <= j,
        !walk_inside(w, h, sx, sy, tb, seed, k),
    ensures
        path_after(g, m, w, h, sx, sy, tb, seed, j + 1) == path_after(g, m, w, h, sx, sy, tb, seed, k + 1),
        !walk_inside(w, h, sx, sy, tb, seed, j),
    decreases j - k,
{
    if j > k {
        lemma_path_stops(g, m, w, h, sx, sy, tb, seed, k, (j - 1) as nat);
    }
}

/// Raises shack `i` with its path (see `shack_item`).
fn place_shack(
    map: &mut GameMap,
    width: i32,
    height: i32,
    seed: NoiseSeed,
    tb: (i32, i32, i32, i32),
    i: i32,
    Ghost(g): Ghost<spec_fn(int, int) -> Voxel>,
    Ghost(m0): Ghost<GameMap>,
)
    requires
        same_frame(old(map), &m0),
        forall|a: int, c: int| old(map).in_bounds(a, c) ==> #[trigger] old(map).voxel(a, c) == g(a, c),
        20 <= width <= MAX_STREET_SIDE,
        20 <= height <= MAX_STREET_SIDE,
        0 <= i <= 100,
        -0x200_0000 <= tb.0 <= 0x200_0000,
        -0x200_0000 <= tb.1 <= 0x200_0000,
        -0x200_0000 <= tb.2 <= 0x200_0000,
        -0x200_0000 <= tb.3 <= 0x200_0000,
    ensures
        same_frame(final(map), &m0),
        forall|a: int, c: int|
            final(map).in_bounds(a, c) ==> #[trigger] final(map).voxel(a, c) == shack_item(
                g,
                &m0,
                width as int,
                height as int,
                seed,
                (tb.0 as int, tb.1 as int, tb.2 as int, tb.3 as int),
                i as int,
            )(a, c),
{
    let ss = seed.wrapping_add(121212).wrapping_add(333);
    let fx = noise_scaled(i, 2, ss, width as u64);
    let fy = noise_scaled(2, i, ss, height as u64);
    let sx = if fx < 8 { 8 } else if fx > width - 12 { width - 12 } else { fx };
    let sy = if fy < 8 { 8 } else if fy > height - 12 { height - 12 } else { fy };
    let ghost tbi = (tb.0 as int, tb.1 as int, tb.2 as int, tb.3 as int);
    let ghost wi = width as int;
    let ghost hi = height as int;
    proof {
        assert((i as int) as i32 == i);
        assert((sx as int, sy as int) == shack_spot(wi, hi, seed, i as int));
    }
    if sx >= tb.0 - 10 && sx <= tb.2 + 10 && sy >= tb.1 - 10 && sy <= tb.3 + 10 {
        return;
    }
    let corner = GridVec::new(sx, sy);
    match map.get_voxel_at(&corner) {
        Some(v) => {
            match v.floor {
                Some(Floor::ShallowWater) | Some(Floor::DeepWater) => {
                    return;
                },
                _ => {},
            }
        },
        None => {
            return;
        },
    }
    if sx + 4 >= width - 1 || sy + 4 >= height - 1 {
        return;
    }
    let ruin_seed = ss.wrapping_add(i as u64);
    let ghost walls = shack_walls(g, &m0, sx as int, sy as int, seed, i as int);
    let mut dy: i32 = 0;
    while dy < 4
        invariant
            same_frame(&*map, &m0),
            0 <= dy <= 4,
            8 <= sx < width - 5,
            8 <= sy < height - 5,
            ruin_seed == wadd64(shack_seed(seed), i as u64),
            walls == shack_walls(g, &m0, sx as int, sy as int, seed, i as int),
            forall|a: int, c: int|
                map.in_bounds(a, c) ==> #[trigger] map.voxel(a, c) == if c < sy + dy {
                    walls(a, c)
                } else {
                    g(a, c)
                },
        decreases 4 - dy,
    {
        let mut dx: i32 = 0;
        while dx < 4
            invariant
                same_frame(&*map, &m0),
                0 <= dy < 4,
                0 <= dx <= 4,
                8 <= sx < width - 5,
                8 <= sy < height - 5,
                ruin_seed == wadd64(shack_seed(seed), i as u64),
                walls == shack_walls(g, &m0, sx as int, sy as int, seed, i as int),
                forall|a: int, c: int|
                    map.in_bounds(a, c) ==> #[trigger] map.voxel(a, c) == if c < sy + dy || (c == sy + dy && a < sx + dx) {
                        walls(a, c)
                    } else {
                        g(a, c)
                    },
            decreases 4 - dx,
        {
            let px = sx + dx;
            let py = sy + dy;
            let p = GridVec::new(px, py);
            match map.get_voxel_at(&p) {
                Some(v) => {
                    let river = match v.floor {
                        Some(Floor::ShallowWater) | Some(Floor::DeepWater) => true,
                        _ => false,
                    };
                    if !river {
                        let border = dx == 0 || dx == 3 || dy == 0 || dy == 3;
                        let door = dy == 3 && dx == 2;
                        let wall = border && !door && noise_below(px, py, ruin_seed, 7, 10);
                        proof {
                            assert((px as int) as i32 == px && (py as int) as i32 == py);
                        }
                        if wall {
                            put_voxel(map, px, py, Voxel { floor: Some(Floor::WoodPlanks), props: Some(Props::Wall) });
                        } else {
                            put_voxel(map, px, py, Voxel { floor: Some(Floor::WoodPlanks), props: None });
                        }
                    }
                },
                None => {},
            }
            dx = dx + 1;
        }
        dy = dy + 1;
    }
    let door_x = sx + 2;
    let door_y = sy + 4;
    let sum_x = tb.0 + tb.2;
    let sum_y = tb.1 + tb.3;
    let town_cx = if sum_x >= 0 { sum_x / 2 } else { -((-sum_x) / 2) };
    let town_cy = if sum_y >= 0 { sum_y / 2 } else { -((-sum_y) / 2) };
    let path_dx: i32 = if town_cx > door_x { 1 } else { -1 };
    let path_dy: i32 = if town_cy > door_y { 1 } else { -1 };
    let step_seed = ss.wrapping_add(777);
    let mut px = door_x;
    let mut py = door_y;
    let mut stopped = false;
    let mut k: u32 = 0;
    while k < 15
        invariant
            same_frame(&*map, &m0),
            0 <= k <= 15,
            8 <= sx < width - 5,
            8 <= sy < height - 5,
            20 <= width <= MAX_STREET_SIDE,
            20 <= height <= MAX_STREET_SIDE,
            step_seed == wadd64(shack_seed(seed), 777),
            tbi == (tb.0 as int, tb.1 as int, tb.2 as int, tb.3 as int),
            wi == width,
            hi == height,
            path_dx == toward(half_toward_zero(tbi.0 + tbi.2), sx + 2),
            path_dy == toward(half_toward_zero(tbi.1 + tbi.3), sy + 4),
            !stopped ==> (px as int, py as int) == walk(sx as int, sy as int, tbi, seed, k as nat),
            !stopped ==> (k == 0 || walk_inside(wi, hi, sx as int, sy as int, tbi, seed, (k - 1) as nat)),
            stopped ==> k >= 1 && !walk_inside(wi, hi, sx as int, sy as int, tbi, seed, (k - 1) as nat),
            -MAX_STREET_SIDE - 20 <= px <= MAX_STREET_SIDE + 20,
            -MAX_STREET_SIDE - 20 <= py <= MAX_STREET_SIDE + 20,
            forall|a: int, c: int|
                map.in_bounds(a, c) ==> #[trigger] map.voxel(a, c) == path_after(
                    walls,
                    &m0,
                    wi,
                    hi,
                    sx as int,
                    sy as int,
                    tbi,
                    seed,
                    k as nat,
                )(a, c),
        decreases 15 - k,
    {
        let ghost kk = k as nat;
        if !stopped {
            if px <= 0 || px >= width - 1 || py <= 0 || py >= height - 1 {
                stopped = true;
            } else {
                let p = GridVec::new(px, py);
                let ghost cur = path_after(walls, &m0, wi, hi, sx as int, sy as int, tbi, seed, kk);
                match map.get_voxel_at(&p) {
                    Some(v) => {
                        let wall = match v.props {
                            Some(q) => q.is_wall(),
                            None => false,
                        };
                        let river = match v.floor {
                            Some(Floor::ShallowWater) | Some(Floor::DeepWater) => true,
                            _ => false,
                        };
                        if !wall && !river {
                            put_voxel(map, px, py, Voxel { floor: Some(Floor::Dirt), props: None });
                        }
                    },
                    None => {},
                }
                proof {
                    assert((px as int) as i32 == px && (py as int) as i32 == py);
                }
                if noise_below(px, py, step_seed, 1, 2) {
                    px = px + path_dx;
                } else {
                    py = py + path_dy;
                }
            }
        } else {
            proof {
                lemma_path_stops(walls, &m0, wi, hi, sx as int, sy as int, tbi, seed, (kk - 1) as nat, kk);
            }
        }
        k = k + 1;
    }
}

/// The tiles of `m` after the outskirts pass: untouched without
/// buildings or on a map under 60 by 40; otherwise the clutter spots and
/// then the shacks, all judged against the town's bounding box.
pub open spec fn transition_zones(m: &GameMap, w: int, h: int, seed: u64, bs: Seq<Building>) -> spec_fn(int, int) -> Voxel {
    if w < 60 || h < 40 || bs.len() == 0 {
        tiles(m)
    } else {
        let tb = town_box(bs);
        shacks_after(
            scatter_after(tiles(m), m, w, h, seed, tb, scatter_count(seed) as nat),
            m,
            w,
            h,
            seed,
            tb,
            shack_count(seed) as nat,
        )
    }
}

/// Places transitional scatter around the town perimeter (isolated
/// clutter and ruined shacks with paths toward town) that thins out into
/// open terrain (see `transition_zones`).
pub fn place_transition_zones(map: &mut GameMap, width: i32, height: i32, seed: NoiseSeed, buildings: &[Building])
    requires
        old(map).wf(),
        width <= MAX_STREET_SIDE,
        height <= MAX_STREET_SIDE,
        forall|i: int| 0 <= i < buildings@.len() ==> building_small(#[trigger] buildings@[i]),
    ensures
        same_frame(final(map), old(map)),
        forall|x: int, y: int|
            final(map).in_bounds(x, y) ==> #[trigger] final(map).voxel(x, y) == transition_zones(
                old(map),
                width as int,
                height as int,
                seed,
                buildings@,
            )(x, y),
{
    if width < 60 || height < 40 || buildings.len() == 0 {
        return;
    }
    let ghost m0 = *map;
    let tb = town_bounds(buildings);
    let ghost tbi = (tb.0 as int, tb.1 as int, tb.2 as int, tb.3 as int);
    proof {
        assert(tbi == town_box(buildings@));
        lemma_box_range(buildings@);
    }
    let ts = seed.wrapping_add(121212);
    let num_scatter = 12 + noise_scaled(0, 0, ts, 8);
    let mut i: i32 = 0;
    while i < num_scatter
        invariant
            same_frame(&*map, &m0),
            m0.wf(),
            60 <= width <= MAX_STREET_SIDE,
            40 <= height <= MAX_STREET_SIDE,
            0 <= i <= num_scatter,
            num_scatter == scatter_count(seed),
            tbi == (tb.0 as int, tb.1 as int, tb.2 as int, tb.3 as int),
            -0x200_0000 <= tb.0 <= 0x200_0000,
            -0x200_0000 <= tb.1 <= 0x200_0000,
            -0x200_0000 <= tb.2 <= 0x200_0000,
            -0x200_0000 <= tb.3 <= 0x200_0000,
            forall|a: int, c: int|
                map.in_bounds(a, c) ==> #[trigger] map.voxel(a, c) == scatter_after(
                    tiles(&m0),
                    &m0,
                    width as int,
                    height as int,
                    seed,
                    tbi,
                    i as nat,
                )(a, c),
        decreases num_scatter - i,
    {
        place_scatter(
            map,
            width,
            height,
            seed,
            tb,
            i,
            Ghost(scatter_after(tiles(&m0), &m0, width as int, height as int, seed, tbi, i as nat)),
            Ghost(m0),
        );
        i = i + 1;
    }
    let ss = ts.wrapping_add(333);
    let num_shacks = 4 + noise_scaled(1, 1, ss, 4);
    let ghost scattered = scatter_after(tiles(&m0), &m0, width as int, height as int, seed, tbi, scatter_count(seed) as nat);
    let mut i: i32 = 0;
    while i < num_shacks
        invariant
            same_frame(&*map, &m0),
            m0.wf(),
            60 <= width <= MAX_STREET_SIDE,
            40 <= height <= MAX_STREET_SIDE,
            0 <= i <= num_shacks,
            num_shacks == shack_count(seed),
            tbi == (tb.0 as int, tb.1 as int, tb.2 as int, tb.3 as int),
            -0x200_0000 <= tb.0 <= 0x200_0000,
            -0x200_0000 <= tb.1 <= 0x200_0000,
            -0x200_0000 <= tb.2 <= 0x200_0000,
            -0x200_0000 <= tb.3 <= 0x200_0000,
            forall|a: int, c: int|
                map.in_bounds(a, c) ==> #[trigger] map.voxel(a, c) == shacks_after(
                    scattered,
                    &m0,
                    width as int,
                    height as int,
                    seed,
                    tbi,
                    i as nat,
                )(a, c),
        decreases num_shacks - i,
    {
        place_shack(
            map,
            width,
            height,
            seed,
            tb,
            i,
            Ghost(shacks_after(scattered, &m0, width as int, height as int, seed, tbi, i as nat)),
            Ghost(m0),
        );
        i = i + 1;
    }
}

/// The town's box lies within the coordinate range of small buildings.
proof fn lemma_box_range(bs: Seq<Building>)
    requires
        bs.len() >= 1,
        forall|i: int| 0 <= i < bs.len() ==> building_small(#[trigger] bs[i]),
    ensures
        -0x200_0000 <= town_box(bs).0 <= 0x200_0000,
        -0x200_0000 <= town_box(bs).1 <= 0x200_0000,
        -0x200_0000 <= town_box(bs).2 <= 0x200_0000,
        -0x200_0000 <= town_box(bs).3 <= 0x200_0000,
{
    lemma_seq_bounds(bs.map_values(|b: Building| b.x as int));
    lemma_seq_bounds(bs.map_values(|b: Building| b.y as int));
    lemma_seq_bounds(bs.map_values(|b: Building| b.x + b.w));
    lemma_seq_bounds(bs.map_values(|b: Building| b.y + b.h));
}

/// The least and greatest elements are elements.
proof fn lemma_seq_bounds(s: Seq<int>)
    requires
        s.len() >= 1,
    ensures
        exists|i: int| 0 <= i < s.len() && s[i] == seq_min(s),
        exists|i: int| 0 <= i < s.len() && s[i] == seq_max(s),
    decreases s.len(),
{
    if s.len() > 1 {
        lemma_seq_bounds(s.drop_last());
        let i = choose|i: int| 0 <= i < s.drop_last().len() && s.drop_last()[i] == seq_min(s.drop_last());
        let j = choose|j: int| 0 <= j < s.drop_last().len() && s.drop_last()[j] == seq_max(s.drop_last());
        assert(s[i] == s.drop_last()[i]);
        assert(s[j] == s.drop_last()[j]);
        assert(s[s.len() - 1] == s.last());
    } else {
        assert(s[0] == seq_min(s));
    }
}

} // verus!
