//! The town's street network: horizontal avenues (a seven-tile carriage
//! road between two-tile sidewalks), vertical cross streets (five-tile
//! road, one-tile sidewalks), bridges where avenues cross the river, the
//! sidewalk tiles that border open ground, and the occupancy marks of the
//! laid streets.
//!
//! Each street meanders: `offsets[i]` is how far the centre line is
//! shifted at position `i` along it (rows for avenues, columns for cross
//! streets). Spacing and jitter come from the exact noise fraction.
use vstd::prelude::*;

use crate::gamemap::{is_water_floor, on_grid, put_voxel, same_frame, GameMap, Voxel};
use crate::graphics::{props_is_wall, Floor};
use crate::grid_vec::{abs_int, GridVec};
use crate::noise::{fraction_scaled, noise2d_spec, noise_scaled, wadd64, NoiseSeed};
use crate::town::clamp_int;
use crate::world_check::is_river_floor;

verus! {

/// The first avenue's row, and the margin kept below the last.
pub const STREET_MARGIN: i32 = 40;
/// Half-width of an avenue's carriage road (seven tiles in all).
pub const AVENUE_HALF_WIDTH: i32 = 3;
/// Sidewalk width on each side of an avenue.
pub const SIDEWALK_WIDTH: i32 = 2;
/// Half-width of a cross street's carriage road (five tiles in all).
pub const CROSS_HALF_WIDTH: i32 = 2;
/// Sidewalk width on each side of a cross street.
pub const CROSS_SIDEWALK_WIDTH: i32 = 1;
/// Largest meander offset the street layers accept.
pub const MAX_CURVE: i32 = 1000;
/// Largest map side the street layers accept.
pub const MAX_STREET_SIDE: i32 = 100_000;

/// Distance between avenues: 32 to 44 rows.
pub open spec fn avenue_spacing(seed: u64) -> int {
    32 + fraction_scaled(noise2d_spec(0, 0, wadd64(seed, 99900)), 12)
}

/// Distance between cross streets before jitter: 28 to 42 columns.
pub open spec fn cross_spacing(seed: u64) -> int {
    28 + fraction_scaled(noise2d_spec(1, 1, wadd64(seed, 99901)), 14)
}

/// Seed of the cross streets' jitter.
pub open spec fn cross_seed(seed: u64) -> u64 {
    wadd64(seed, 66666)
}

/// Cross street `k`'s column: `40 + k * spacing` moved by a jitter of -5
/// to 5 and kept two columns inside the map.
pub open spec fn cross_x(width: int, seed: u64, k: int) -> int {
    clamp_int(
        40 + k * cross_spacing(seed) + fraction_scaled(noise2d_spec(k as i32, 0, cross_seed(seed)), 10) - 5,
        2,
        width - 3,
    )
}

/// Rows of the avenues: from row 40, one per `avenue_spacing`, while
/// above `height - 40`.
pub fn plan_avenues(height: i32, seed: NoiseSeed) -> (r: Vec<i32>)
    requires
        i32::MIN + 40 <= height <= MAX_STREET_SIDE,
    ensures
        forall|k: int| 0 <= k < r@.len() ==> #[trigger] r@[k] == 40 + k * avenue_spacing(seed),
        forall|k: int| 0 <= k < r@.len() ==> #[trigger] r@[k] < height - 40,
        40 + r@.len() * avenue_spacing(seed) >= height - 40,
{
    let spacing = 32 + noise_scaled(0, 0, seed.wrapping_add(99900), 12);
    let ghost s = avenue_spacing(seed);
    let mut ys: Vec<i32> = Vec::new();
    let mut ay: i32 = STREET_MARGIN;
    assert(ay == 40 + ys@.len() * s);
    while ay < height - STREET_MARGIN
        invariant
            i32::MIN + 40 <= height <= MAX_STREET_SIDE,
            spacing == s,
            s == avenue_spacing(seed),
            32 <= s <= 44,
            ay == 40 + ys@.len() * s,
            ay <= MAX_STREET_SIDE + 44,
            forall|k: int| 0 <= k < ys@.len() ==> #[trigger] ys@[k] == 40 + k * s,
            forall|k: int| 0 <= k < ys@.len() ==> #[trigger] ys@[k] < height - 40,
        decreases height + 100 - ay,
    {
        proof {
            let n = ys@.len();
            assert(40 + (n + 1) * s == 40 + n * s + s) by (nonlinear_arith);
        }
        ys.push(ay);
        ay = ay + spacing;
    }
    ys
}

/// Columns of the cross streets: from column 40, one per
/// `cross_spacing`, while left of `width - 40`, each jittered (see
/// `cross_x`).
pub fn plan_cross_streets(width: i32, seed: NoiseSeed) -> (r: Vec<i32>)
    requires
        i32::MIN + 40 <= width <= MAX_STREET_SIDE,
    ensures
        forall|k: int| 0 <= k < r@.len() ==> #[trigger] r@[k] == cross_x(width as int, seed, k),
        r@.len() == 0 || 40 + (r@.len() - 1) * cross_spacing(seed) < width - 40,
        40 + r@.len() * cross_spacing(seed) >= width - 40,
{
    let spacing = 28 + noise_scaled(1, 1, seed.wrapping_add(99901), 14);
    let jitter_seed = seed.wrapping_add(66666);
    let ghost s = cross_spacing(seed);
    let mut xs: Vec<i32> = Vec::new();
    let mut cx: i32 = STREET_MARGIN;
    let mut ci: i32 = 0;
    while cx < width - STREET_MARGIN
        invariant
            i32::MIN + 40 <= width <= MAX_STREET_SIDE,
            spacing == s,
            s == cross_spacing(seed),
            jitter_seed == cross_seed(seed),
            28 <= s <= 42,
            ci == xs@.len(),
            cx == 40 + ci * s,
            cx <= MAX_STREET_SIDE + 42,
            ci == 0 || 40 + (ci - 1) * s < width - 40,
            forall|k: int| 0 <= k < xs@.len() ==> #[trigger] xs@[k] == cross_x(width as int, seed, k),
        decreases width + 100 - cx,
    {
        let jitter = noise_scaled(ci, 0, jitter_seed, 10) - 5;
        let moved = cx + jitter;
        let actual = if moved < 2 {
            2
        } else if moved > width - 3 {
            width - 3
        } else {
            moved
        };
        proof {
            assert(40 + (ci + 1) * s == 40 + ci * s + s) by (nonlinear_arith);
            assert(ci <= cx) by (nonlinear_arith)
                requires
                    cx == 40 + ci * s,
                    s >= 28,
                    ci >= 0,
            ;
            assert((ci as int) as i32 == ci);
        }
        xs.push(actual);
        cx = cx + spacing;
        ci = ci + 1;
    }
    xs
}

/// Road, sidewalk or bridge ground.
pub open spec fn is_street_floor(f: Option<Floor>) -> bool {
    f == Some(Floor::DirtRoad) || f == Some(Floor::Sidewalk) || f == Some(Floor::Bridge)
}

/// A wall stands on the voxel.
pub open spec fn walled(v: Voxel) -> bool {
    match v.props {
        Some(p) => props_is_wall(p),
        None => false,
    }
}

/// An empty voxel with the given ground.
pub open spec fn paved(f: Floor) -> Voxel {
    Voxel { floor: Some(f), props: None }
}

/// The voxel at `(x, y)` after laying the avenue centred on row `ay`,
/// shifted by `off[x]` in column `x`: the carriage road within three rows
/// of the centre, sidewalks four and five rows away; inside the map's
/// border and never over water or beach.
pub open spec fn avenue_voxel(v: Voxel, x: int, y: int, ay: int, off: Seq<i32>, w: int, h: int) -> Voxel {
    if 1 <= x < w - 1 && 0 < y < h - 1 && !is_water_floor(v.floor) {
        let d = y - ay - off[x];
        if -3 <= d <= 3 {
            paved(Floor::DirtRoad)
        } else if 4 <= abs_int(d) <= 5 {
            paved(Floor::Sidewalk)
        } else {
            v
        }
    } else {
        v
    }
}

/// The voxel after laying the first `k` avenues in order.
pub open spec fn avenues_voxel(v: Voxel, x: int, y: int, ys: Seq<i32>, offs: Seq<Seq<i32>>, w: int, h: int, k: nat) -> Voxel
    decreases k,
{
    if k == 0 {
        v
    } else {
        avenue_voxel(avenues_voxel(v, x, y, ys, offs, w, h, (k - 1) as nat), x, y, ys[k - 1] as int, offs[k - 1], w, h)
    }
}

/// Meander offsets fit for a street of `len` positions.
pub open spec fn curve_ok(off: Seq<i32>, len: int) -> bool {
    off.len() == len && forall|i: int| 0 <= i < len ==> -MAX_CURVE <= #[trigger] off[i] <= MAX_CURVE
}

/// The map has the given dimensions.
pub open spec fn sized(m: &GameMap, w: int, h: int) -> bool {
    m.wf() && m.width == w && m.height == h
}

/// Paves the tile `(x, y)` with `f` unless it is off the map or (for
/// `guard_water`) water or beach.
fn pave_at(map: &mut GameMap, x: i32, y: i32, f: Floor)
    requires
        old(map).wf(),
    ensures
        same_frame(final(map), old(map)),
        forall|a: int, c: int|
            final(map).in_bounds(a, c) ==> #[trigger] final(map).voxel(a, c) == if a == x && c == y
                && !is_water_floor(old(map).voxel(a, c).floor) {
                paved(f)
            } else {
                old(map).voxel(a, c)
            },
{
    let pos = GridVec::new(x, y);
    match map.get_voxel_at(&pos) {
        Some(v) => {
            let water = match v.floor {
                Some(Floor::ShallowWater) | Some(Floor::DeepWater) | Some(Floor::Beach) | Some(Floor::BeachSand) => true,
                _ => false,
            };
            if !water {
                put_voxel(map, x, y, Voxel { floor: Some(f), props: None });
            }
        },
        None => {},
    }
}

/// Lays the avenue centred on row `ay`, column `x` shifted by `off[x]`.
pub fn lay_avenue(map: &mut GameMap, ay: i32, off: &Vec<i32>, width: i32, height: i32)
    requires
        sized(old(map), width as int, height as int),
        0 <= width <= MAX_STREET_SIDE,
        0 <= height <= MAX_STREET_SIDE,
        -MAX_STREET_SIDE <= ay <= MAX_STREET_SIDE,
        curve_ok(off@, width as int),
    ensures
        same_frame(final(map), old(map)),
        forall|x: int, y: int|
            final(map).in_bounds(x, y) ==> #[trigger] final(map).voxel(x, y) == avenue_voxel(
                old(map).voxel(x, y),
                x,
                y,
                ay as int,
                off@,
                width as int,
                height as int,
            ),
{
    let ghost pre = *map;
    let mut x: i32 = 1;
    while x < width - 1
        invariant
            pre.wf(),
            same_frame(&*map, &pre),
            sized(&pre, width as int, height as int),
            0 <= width <= MAX_STREET_SIDE,
            0 <= height <= MAX_STREET_SIDE,
            -MAX_STREET_SIDE <= ay <= MAX_STREET_SIDE,
            curve_ok(off@, width as int),
            1 <= x,
            x <= width - 1 || width < 2,
            forall|a: int, c: int|
                map.in_bounds(a, c) ==> #[trigger] map.voxel(a, c) == if a < x {
                    avenue_voxel(pre.voxel(a, c), a, c, ay as int, off@, width as int, height as int)
                } else {
                    pre.voxel(a, c)
                },
        decreases width - x,
    {
        let o = off[x as usize];
        let mut d: i32 = -5;
        while d <= 5
            invariant
                pre.wf(),
                same_frame(&*map, &pre),
                sized(&pre, width as int, height as int),
                0 <= width <= MAX_STREET_SIDE,
                0 <= height <= MAX_STREET_SIDE,
                -MAX_STREET_SIDE <= ay <= MAX_STREET_SIDE,
                curve_ok(off@, width as int),
                1 <= x < width - 1,
                o == off@[x as int],
                -5 <= d <= 6,
                forall|a: int, c: int|
                    map.in_bounds(a, c) ==> #[trigger] map.voxel(a, c) == if a < x || (a == x && c - ay - o < d) {
                        avenue_voxel(pre.voxel(a, c), a, c, ay as int, off@, width as int, height as int)
                    } else {
                        pre.voxel(a, c)
                    },
            decreases 6 - d,
        {
            let y = ay + d + o;
            if y > 0 && y < height - 1 {
                let f = if d >= -3 && d <= 3 {
                    Floor::DirtRoad
                } else {
                    Floor::Sidewalk
                };
                pave_at(map, x, y, f);
            }
            d = d + 1;
        }
        x = x + 1;
    }
}

/// The meander offsets of a list of streets.
pub open spec fn curves(offs: Seq<Vec<i32>>) -> Seq<Seq<i32>> {
    Seq::new(offs.len(), |i: int| offs[i]@)
}

/// Lays the avenues centred on the rows `ys`, in order, the `k`-th with
/// meander offsets `offs[k]`.
pub fn lay_avenues(map: &mut GameMap, ys: &[i32], offs: &Vec<Vec<i32>>, width: i32, height: i32)
    requires
        sized(old(map), width as int, height as int),
        0 <= width <= MAX_STREET_SIDE,
        0 <= height <= MAX_STREET_SIDE,
        offs@.len() == ys@.len(),
        forall|k: int| 0 <= k < ys@.len() ==> -MAX_STREET_SIDE <= #[trigger] ys@[k] <= MAX_STREET_SIDE,
        forall|k: int| 0 <= k < offs@.len() ==> curve_ok(#[trigger] offs@[k]@, width as int),
    ensures
        same_frame(final(map), old(map)),
        forall|x: int, y: int|
            final(map).in_bounds(x, y) ==> #[trigger] final(map).voxel(x, y) == avenues_voxel(
                old(map).voxel(x, y),
                x,
                y,
                ys@,
                curves(offs@),
                width as int,
                height as int,
                ys@.len(),
            ),
{
    let ghost pre = *map;
    let mut k: usize = 0;
    while k < ys.len()
        invariant
            pre.wf(),
            sized(&pre, width as int, height as int),
            same_frame(&*map, &pre),
            0 <= width <= MAX_STREET_SIDE,
            0 <= height <= MAX_STREET_SIDE,
            offs@.len() == ys@.len(),
            forall|q: int| 0 <= q < ys@.len() ==> -MAX_STREET_SIDE <= #[trigger] ys@[q] <= MAX_STREET_SIDE,
            forall|q: int| 0 <= q < offs@.len() ==> curve_ok(#[trigger] offs@[q]@, width as int),
            k <= ys@.len(),
            forall|x: int, y: int|
                map.in_bounds(x, y) ==> #[trigger] map.voxel(x, y) == avenues_voxel(
                    pre.voxel(x, y),
                    x,
                    y,
                    ys@,
                    curves(offs@),
                    width as int,
                    height as int,
                    k as nat,
                ),
        decreases ys@.len() - k,
    {
        proof {
            assert(curve_ok(offs@[k as int]@, width as int));
            assert(curves(offs@)[k as int] == offs@[k as int]@);
        }
        lay_avenue(map, ys[k], &offs[k], width, height);
        k = k + 1;
    }
}

/// The voxel at `(x, y)` after laying the cross street centred on column
/// `cx`, shifted by `off[y]` in row `y`: the carriage road within two
/// columns of the centre, sidewalks three columns away (never over an
/// avenue's road); inside the map's border, and never over water, beach,
/// bridges or walls.
pub open spec fn cross_voxel(v: Voxel, x: int, y: int, cx: int, off: Seq<i32>, w: int, h: int) -> Voxel {
    if 1 <= y < h - 1 && 0 < x < w - 1 && !is_water_floor(v.floor) && v.floor != Some(Floor::Bridge) && !walled(v) {
        let d = x - cx - off[y];
        if -2 <= d <= 2 {
            paved(Floor::DirtRoad)
        } else if abs_int(d) == 3 && v.floor != Some(Floor::DirtRoad) {
            paved(Floor::Sidewalk)
        } else {
            v
        }
    } else {
        v
    }
}

/// The voxel after laying the first `k` cross streets in order.
pub open spec fn crosses_voxel(v: Voxel, x: int, y: int, xs: Seq<i32>, offs: Seq<Seq<i32>>, w: int, h: int, k: nat) -> Voxel
    decreases k,
{
    if k == 0 {
        v
    } else {
        cross_voxel(crosses_voxel(v, x, y, xs, offs, w, h, (k - 1) as nat), x, y, xs[k - 1] as int, offs[k - 1], w, h)
    }
}

/// Paves the on-map tile `(x, y)` with `f` unless it is water, beach,
/// bridge or walled, or (with `keep_road`) already road.
fn pave_cross_at(map: &mut GameMap, x: i32, y: i32, f: Floor, keep_road: bool)
    requires
        old(map).wf(),
    ensures
        same_frame(final(map), old(map)),
        forall|a: int, c: int|
            final(map).in_bounds(a, c) ==> #[trigger] final(map).voxel(a, c) == if a == x && c == y
                && !is_water_floor(old(map).voxel(a, c).floor) && old(map).voxel(a, c).floor != Some(Floor::Bridge)
                && !walled(old(map).voxel(a, c)) && !(keep_road && old(map).voxel(a, c).floor == Some(Floor::DirtRoad)) {
                paved(f)
            } else {
                old(map).voxel(a, c)
            },
{
    let pos = GridVec::new(x, y);
    match map.get_voxel_at(&pos) {
        Some(v) => {
            let blocked = match v.floor {
                Some(Floor::ShallowWater) | Some(Floor::DeepWater) | Some(Floor::Beach) | Some(Floor::BeachSand)
                | Some(Floor::Bridge) => true,
                Some(Floor::DirtRoad) => keep_road,
                _ => false,
            };
            let wall = match v.props {
                Some(p) => p.is_wall(),
                None => false,
            };
            if !blocked && !wall {
                put_voxel(map, x, y, Voxel { floor: Some(f), props: None });
            }
        },
        None => {},
    }
}

/// Lays the cross street centred on column `cx`, row `y` shifted by
/// `off[y]`.
pub fn lay_cross_street(map: &mut GameMap, cx: i32, off: &Vec<i32>, width: i32, height: i32)
    requires
        sized(old(map), width as int, height as int),
        0 <= width <= MAX_STREET_SIDE,
        0 <= height <= MAX_STREET_SIDE,
        -MAX_STREET_SIDE <= cx <= MAX_STREET_SIDE,
        curve_ok(off@, height as int),
    ensures
        same_frame(final(map), old(map)),
        forall|x: int, y: int|
            final(map).in_bounds(x, y) ==> #[trigger] final(map).voxel(x, y) == cross_voxel(
                old(map).voxel(x, y),
                x,
                y,
                cx as int,
                off@,
                width as int,
                height as int,
            ),
{
    let ghost pre = *map;
    let mut y: i32 = 1;
    while y < height - 1
        invariant
            pre.wf(),
            same_frame(&*map, &pre),
            sized(&pre, width as int, height as int),
            0 <= width <= MAX_STREET_SIDE,
            0 <= height <= MAX_STREET_SIDE,
            -MAX_STREET_SIDE <= cx <= MAX_STREET_SIDE,
            curve_ok(off@, height as int),
            1 <= y,
            y <= height - 1 || height < 2,
            forall|a: int, c: int|
                map.in_bounds(a, c) ==> #[trigger] map.voxel(a, c) == if c < y {
                    cross_voxel(pre.voxel(a, c), a, c, cx as int, off@, width as int, height as int)
                } else {
                    pre.voxel(a, c)
                },
        decreases height - y,
    {
        let o = off[y as usize];
        let mut d: i32 = -3;
        while d <= 3
            invariant
                pre.wf(),
                same_frame(&*map, &pre),
                sized(&pre, width as int, height as int),
                0 <= width <= MAX_STREET_SIDE,
                0 <= height <= MAX_STREET_SIDE,
                -MAX_STREET_SIDE <= cx <= MAX_STREET_SIDE,
                curve_ok(off@, height as int),
                1 <= y < height - 1,
                o == off@[y as int],
                -3 <= d <= 4,
                forall|a: int, c: int|
                    map.in_bounds(a, c) ==> #[trigger] map.voxel(a, c) == if c < y || (c == y && a - cx - o < d) {
                        cross_voxel(pre.voxel(a, c), a, c, cx as int, off@, width as int, height as int)
                    } else {
                        pre.voxel(a, c)
                    },
            decreases 4 - d,
        {
            let x = cx + d + o;
            if x > 0 && x < width - 1 {
                if d >= -2 && d <= 2 {
                    pave_cross_at(map, x, y, Floor::DirtRoad, false);
                } else {
                    pave_cross_at(map, x, y, Floor::Sidewalk, true);
                }
            }
            d = d + 1;
        }
        y = y + 1;
    }
}

/// Lays the cross streets centred on the columns `xs`, in order, the
/// `k`-th with meander offsets `offs[k]`.
pub fn lay_cross_streets(map: &mut GameMap, xs: &[i32], offs: &Vec<Vec<i32>>, width: i32, height: i32)
    requires
        sized(old(map), width as int, height as int),
        0 <= width <= MAX_STREET_SIDE,
        0 <= height <= MAX_STREET_SIDE,
        offs@.len() == xs@.len(),
        forall|k: int| 0 <= k < xs@.len() ==> -MAX_STREET_SIDE <= #[trigger] xs@[k] <= MAX_STREET_SIDE,
        forall|k: int| 0 <= k < offs@.len() ==> curve_ok(#[trigger] offs@[k]@, height as int),
    ensures
        same_frame(final(map), old(map)),
        forall|x: int, y: int|
            final(map).in_bounds(x, y) ==> #[trigger] final(map).voxel(x, y) == crosses_voxel(
                old(map).voxel(x, y),
                x,
                y,
                xs@,
                curves(offs@),
                width as int,
                height as int,
                xs@.len(),
            ),
{
    let ghost pre = *map;
    let mut k: usize = 0;
    while k < xs.len()
        invariant
            pre.wf(),
            sized(&pre, width as int, height as int),
            same_frame(&*map, &pre),
            0 <= width <= MAX_STREET_SIDE,
            0 <= height <= MAX_STREET_SIDE,
            offs@.len() == xs@.len(),
            forall|q: int| 0 <= q < xs@.len() ==> -MAX_STREET_SIDE <= #[trigger] xs@[q] <= MAX_STREET_SIDE,
            forall|q: int| 0 <= q < offs@.len() ==> curve_ok(#[trigger] offs@[q]@, height as int),
            k <= xs@.len(),
            forall|x: int, y: int|
                map.in_bounds(x, y) ==> #[trigger] map.voxel(x, y) == crosses_voxel(
                    pre.voxel(x, y),
                    x,
                    y,
                    xs@,
                    curves(offs@),
                    width as int,
                    height as int,
                    k as nat,
                ),
        decreases xs@.len() - k,
    {
        proof {
            assert(curve_ok(offs@[k as int]@, height as int));
            assert(curves(offs@)[k as int] == offs@[k as int]@);
        }
        lay_cross_street(map, xs[k], &offs[k], width, height);
        k = k + 1;
    }
}

/// The map's voxels as a function of the tile.
pub open spec fn tiles(m: &GameMap) -> spec_fn(int, int) -> Voxel {
    |x: int, y: int| m.voxel(x, y)
}

/// Half-width of an avenue's road band, sidewalks included.
pub open spec fn road_band() -> int {
    AVENUE_HALF_WIDTH + SIDEWALK_WIDTH
}

/// Row `y` lies in the road band of the avenue centred on `ay + o`,
/// inside the map's border.
pub open spec fn in_band(y: int, ay: int, o: int, h: int) -> bool {
    -road_band() <= y - ay - o <= road_band() && 0 < y < h - 1
}

/// In column `x` the avenue's road band meets river water.
pub open spec fn column_crosses(g: spec_fn(int, int) -> Voxel, x: int, ay: int, off: Seq<i32>, w: int, h: int) -> bool {
    1 <= x < w - 1 && exists|y: int| in_band(y, ay, off[x] as int, h) && is_river_floor(#[trigger] g(x, y).floor)
}

/// Ground a bridge replaces: river water or beach sand.
pub open spec fn bridgeable(f: Option<Floor>) -> bool {
    is_river_floor(f) || f == Some(Floor::BeachSand)
}

/// The voxel at `(x, y)` after bridging the avenue centred on row `ay`:
/// in the columns where its road band meets the river, the band's water
/// and beach sand become bridge.
pub open spec fn bridged(g: spec_fn(int, int) -> Voxel, x: int, y: int, ay: int, off: Seq<i32>, w: int, h: int) -> Voxel {
    if column_crosses(g, x, ay, off, w, h) && in_band(y, ay, off[x] as int, h) && bridgeable(g(x, y).floor) {
        paved(Floor::Bridge)
    } else {
        g(x, y)
    }
}

/// The tiles after bridging the first `k` avenues in order.
pub open spec fn bridges_after(
    g: spec_fn(int, int) -> Voxel,
    ys: Seq<i32>,
    offs: Seq<Seq<i32>>,
    w: int,
    h: int,
    k: nat,
) -> spec_fn(int, int) -> Voxel
    decreases k,
{
    if k == 0 {
        g
    } else {
        let prev = bridges_after(g, ys, offs, w, h, (k - 1) as nat);
        |x: int, y: int| bridged(prev, x, y, ys[k - 1] as int, offs[k - 1], w, h)
    }
}

/// Whether the road band of the avenue centred on `ay + o` meets river
/// water in column `x`.
fn band_meets_water(map: &GameMap, x: i32, ay: i32, o: i32, height: i32) -> (r: bool)
    requires
        map.wf(),
        -MAX_STREET_SIDE <= ay <= MAX_STREET_SIDE,
        -MAX_CURVE <= o <= MAX_CURVE,
        0 <= height <= MAX_STREET_SIDE,
        map.height == height,
        0 <= x < map.width,
    ensures
        r == exists|y: int| in_band(y, ay as int, o as int, height as int) && is_river_floor(
            #[trigger] tiles(map)(x as int, y).floor,
        ),
{
    let mut hw: i32 = -5;
    while hw <= 5
        invariant
            map.wf(),
            -MAX_STREET_SIDE <= ay <= MAX_STREET_SIDE,
            -MAX_CURVE <= o <= MAX_CURVE,
            0 <= height <= MAX_STREET_SIDE,
            map.height == height,
            0 <= x < map.width,
            -5 <= hw <= 6,
            forall|y: int|
                in_band(y, ay as int, o as int, height as int) && y - ay - o < hw ==> !is_river_floor(
                    #[trigger] tiles(map)(x as int, y).floor,
                ),
        decreases 6 - hw,
    {
        let y = ay + o + hw;
        if y > 0 && y < height - 1 {
            let pos = GridVec::new(x, y);
            match map.get_voxel_at(&pos) {
                Some(v) => {
                    let river = match v.floor {
                        Some(Floor::ShallowWater) | Some(Floor::DeepWater) => true,
                        _ => false,
                    };
                    if river {
                        proof {
                            assert(in_band(y as int, ay as int, o as int, height as int));
                            assert(is_river_floor(tiles(map)(x as int, y as int).floor));
                        }
                        return true;
                    }
                },
                None => {},
            }
        }
        hw = hw + 1;
    }
    false
}

/// Bridges the avenue centred on row `ay`: first finds the columns where
/// its road band meets the river, then turns the band's water and beach
/// sand in those columns into bridge.
pub fn bridge_avenue(map: &mut GameMap, ay: i32, off: &Vec<i32>, width: i32, height: i32)
    requires
        sized(old(map), width as int, height as int),
        0 <= width <= MAX_STREET_SIDE,
        0 <= height <= MAX_STREET_SIDE,
        -MAX_STREET_SIDE <= ay <= MAX_STREET_SIDE,
        curve_ok(off@, width as int),
    ensures
        same_frame(final(map), old(map)),
        forall|x: int, y: int|
            final(map).in_bounds(x, y) ==> #[trigger] final(map).voxel(x, y) == bridged(
                tiles(old(map)),
                x,
                y,
                ay as int,
                off@,
                width as int,
                height as int,
            ),
{
    let ghost pre = *map;
    let mut crossing: Vec<bool> = Vec::new();
    let mut x: i32 = 0;
    while x < width
        invariant
            pre.wf(),
            *map == pre,
            sized(&pre, width as int, height as int),
            0 <= width <= MAX_STREET_SIDE,
            0 <= height <= MAX_STREET_SIDE,
            -MAX_STREET_SIDE <= ay <= MAX_STREET_SIDE,
            curve_ok(off@, width as int),
            0 <= x <= width,
            crossing@.len() == x,
            forall|a: int| 0 <= a < x ==> #[trigger] crossing@[a] == column_crosses(tiles(&pre), a, ay as int, off@, width as int, height as int),
        decreases width - x,
    {
        let c = if x >= 1 && x < width - 1 {
            band_meets_water(map, x, ay, off[x as usize], height)
        } else {
            false
        };
        crossing.push(c);
        x = x + 1;
    }
    let mut x: i32 = 1;
    while x < width - 1
        invariant
            pre.wf(),
            same_frame(&*map, &pre),
            sized(&pre, width as int, height as int),
            0 <= width <= MAX_STREET_SIDE,
            0 <= height <= MAX_STREET_SIDE,
            -MAX_STREET_SIDE <= ay <= MAX_STREET_SIDE,
            curve_ok(off@, width as int),
            1 <= x,
            x <= width - 1 || width < 2,
            crossing@.len() == width,
            forall|a: int| 0 <= a < width ==> #[trigger] crossing@[a] == column_crosses(tiles(&pre), a, ay as int, off@, width as int, height as int),
            forall|a: int, c: int|
                map.in_bounds(a, c) ==> #[trigger] map.voxel(a, c) == if a < x {
                    bridged(tiles(&pre), a, c, ay as int, off@, width as int, height as int)
                } else {
                    pre.voxel(a, c)
                },
        decreases width - x,
    {
        if crossing[x as usize] {
            let o = off[x as usize];
            let mut hw: i32 = -5;
            while hw <= 5
                invariant
                    pre.wf(),
                    same_frame(&*map, &pre),
                    sized(&pre, width as int, height as int),
                    0 <= width <= MAX_STREET_SIDE,
                    0 <= height <= MAX_STREET_SIDE,
                    -MAX_STREET_SIDE <= ay <= MAX_STREET_SIDE,
                    curve_ok(off@, width as int),
                    1 <= x < width - 1,
                    o == off@[x as int],
                    column_crosses(tiles(&pre), x as int, ay as int, off@, width as int, height as int),
                    -5 <= hw <= 6,
                    forall|a: int, c: int|
                        map.in_bounds(a, c) ==> #[trigger] map.voxel(a, c) == if a < x || (a == x && c - ay - o < hw) {
                            bridged(tiles(&pre), a, c, ay as int, off@, width as int, height as int)
                        } else {
                            pre.voxel(a, c)
                        },
                decreases 6 - hw,
            {
                let y = ay + o + hw;
                if y > 0 && y < height - 1 {
                    let pos = GridVec::new(x, y);
                    match map.get_voxel_at(&pos) {
                        Some(v) => {
                            let turn = match v.floor {
                                Some(Floor::ShallowWater) | Some(Floor::DeepWater) | Some(Floor::BeachSand) => true,
                                _ => false,
                            };
                            if turn {
                                put_voxel(map, x, y, Voxel { floor: Some(Floor::Bridge), props: None });
                            }
                        },
                        None => {},
                    }
                }
                hw = hw + 1;
            }
        }
        x = x + 1;
    }
}

/// Bridges the avenues centred on the rows `ys`, in order, the `k`-th with
/// meander offsets `offs[k]`.
pub fn bridge_avenues(map: &mut GameMap, ys: &[i32], offs: &Vec<Vec<i32>>, width: i32, height: i32)
    requires
        sized(old(map), width as int, height as int),
        0 <= width <= MAX_STREET_SIDE,
        0 <= height <= MAX_STREET_SIDE,
        offs@.len() == ys@.len(),
        forall|k: int| 0 <= k < ys@.len() ==> -MAX_STREET_SIDE <= #[trigger] ys@[k] <= MAX_STREET_SIDE,
        forall|k: int| 0 <= k < offs@.len() ==> curve_ok(#[trigger] offs@[k]@, width as int),
    ensures
        same_frame(final(map), old(map)),
        forall|x: int, y: int|
            final(map).in_bounds(x, y) ==> #[trigger] final(map).voxel(x, y) == bridges_after(
                tiles(old(map)),
                ys@,
                curves(offs@),
                width as int,
                height as int,
                ys@.len(),
            )(x, y),
{
    let ghost pre = *map;
    let mut k: usize = 0;
    while k < ys.len()
        invariant
            pre.wf(),
            sized(&pre, width as int, height as int),
            same_frame(&*map, &pre),
            0 <= width <= MAX_STREET_SIDE,
            0 <= height <= MAX_STREET_SIDE,
            offs@.len() == ys@.len(),
            forall|q: int| 0 <= q < ys@.len() ==> -MAX_STREET_SIDE <= #[trigger] ys@[q] <= MAX_STREET_SIDE,
            forall|q: int| 0 <= q < offs@.len() ==> curve_ok(#[trigger] offs@[q]@, width as int),
            k <= ys@.len(),
            forall|x: int, y: int|
                map.in_bounds(x, y) ==> #[trigger] map.voxel(x, y) == bridges_after(
                    tiles(&pre),
                    ys@,
                    curves(offs@),
                    width as int,
                    height as int,
                    k as nat,
                )(x, y),
        decreases ys@.len() - k,
    {
        proof {
            assert(curve_ok(offs@[k as int]@, width as int));
            assert(curves(offs@)[k as int] == offs@[k as int]@);
        }
        let ghost cur = *map;
        bridge_avenue(map, ys[k], &offs[k], width, height);
        proof {
            let prev = bridges_after(tiles(&pre), ys@, curves(offs@), width as int, height as int, k as nat);
            assert forall|x: int, y: int| #[trigger] tiles(&cur)(x, y) == prev(x, y) || !cur.in_bounds(x, y) by {}
            assert forall|x: int, y: int| map.in_bounds(x, y) implies #[trigger] map.voxel(x, y) == bridges_after(
                tiles(&pre),
                ys@,
                curves(offs@),
                width as int,
                height as int,
                (k + 1) as nat,
            )(x, y) by {
                assert(column_crosses(tiles(&cur), x, ys@[k as int] as int, offs@[k as int]@, width as int, height as int)
                    == column_crosses(prev, x, ys@[k as int] as int, offs@[k as int]@, width as int, height as int)) by {
                    let ay = ys@[k as int] as int;
                    let o = offs@[k as int]@[x] as int;
                    if column_crosses(tiles(&cur), x, ay, offs@[k as int]@, width as int, height as int) {
                        let y2 = choose|y2: int| in_band(y2, ay, o, height as int) && is_river_floor(#[trigger] tiles(&cur)(x, y2).floor);
                        assert(cur.in_bounds(x, y2));
                        assert(tiles(&cur)(x, y2) == prev(x, y2));
                    }
                    if column_crosses(prev, x, ay, offs@[k as int]@, width as int, height as int) {
                        let y2 = choose|y2: int| in_band(y2, ay, o, height as int) && is_river_floor(#[trigger] prev(x, y2).floor);
                        assert(cur.in_bounds(x, y2));
                        assert(tiles(&cur)(x, y2) == prev(x, y2));
                    }
                }
            }
        }
        k = k + 1;
    }
}

/// `(x, y)` is on the map and its ground is not street.
pub open spec fn open_ground(m: &GameMap, x: int, y: int) -> bool {
    m.in_bounds(x, y) && !is_street_floor(m.voxel(x, y).floor)
}

/// A sidewalk tile inside the map's border with open ground on one of
/// its four sides.
pub open spec fn road_edge(m: &GameMap, x: int, y: int) -> bool {
    &&& 1 <= x < m.width - 1
    &&& 1 <= y < m.height - 1
    &&& m.voxel(x, y).floor == Some(Floor::Sidewalk)
    &&& (open_ground(m, x, y + 1) || open_ground(m, x + 1, y) || open_ground(m, x, y - 1) || open_ground(m, x - 1, y))
}

/// `a` comes before `b` row by row.
pub open spec fn row_major_before(a: (i32, i32), b: (i32, i32)) -> bool {
    a.1 < b.1 || (a.1 == b.1 && a.0 < b.0)
}

/// Whether `(x, y)` is on the map with non-street ground.
fn is_open_ground(map: &GameMap, x: i32, y: i32) -> (r: bool)
    requires
        map.wf(),
    ensures
        r == open_ground(map, x as int, y as int),
{
    let pos = GridVec::new(x, y);
    match map.get_voxel_at(&pos) {
        Some(v) => match v.floor {
            Some(Floor::DirtRoad) | Some(Floor::Sidewalk) | Some(Floor::Bridge) => false,
            _ => true,
        },
        None => false,
    }
}

/// The sidewalk tiles that border open ground, row by row: where props
/// can follow the roads as laid.
pub fn road_edge_tiles(map: &GameMap) -> (r: Vec<(i32, i32)>)
    requires
        map.wf(),
        map.width <= MAX_STREET_SIDE,
        map.height <= MAX_STREET_SIDE,
    ensures
        forall|i: int| 0 <= i < r@.len() ==> road_edge(map, (#[trigger] r@[i]).0 as int, r@[i].1 as int),
        forall|i: int, j: int| 0 <= i < j < r@.len() ==> row_major_before(#[trigger] r@[i], #[trigger] r@[j]),
        forall|x: int, y: int|
            #[trigger] road_edge(map, x, y) ==> exists|i: int| 0 <= i < r@.len() && r@[i].0 == x && r@[i].1 == y,
{
    let mut out: Vec<(i32, i32)> = Vec::new();
    let mut y: i32 = 1;
    while y < map.height - 1
        invariant
            map.wf(),
            map.width <= MAX_STREET_SIDE,
            map.height <= MAX_STREET_SIDE,
            1 <= y,
            y <= map.height - 1 || map.height < 2,
            forall|i: int| 0 <= i < out@.len() ==> road_edge(map, (#[trigger] out@[i]).0 as int, out@[i].1 as int),
            forall|i: int| 0 <= i < out@.len() ==> (#[trigger] out@[i]).1 < y,
            forall|i: int, j: int| 0 <= i < j < out@.len() ==> row_major_before(#[trigger] out@[i], #[trigger] out@[j]),
            forall|a: int, c: int|
                #[trigger] road_edge(map, a, c) && c < y ==> exists|i: int| 0 <= i < out@.len() && out@[i].0 == a && out@[i].1 == c,
        decreases map.height - y,
    {
        let mut x: i32 = 1;
        while x < map.width - 1
            invariant
                map.wf(),
                map.width <= MAX_STREET_SIDE,
                map.height <= MAX_STREET_SIDE,
                1 <= y < map.height - 1,
                1 <= x,
                x <= map.width - 1 || map.width < 2,
                forall|i: int| 0 <= i < out@.len() ==> road_edge(map, (#[trigger] out@[i]).0 as int, out@[i].1 as int),
                forall|i: int| 0 <= i < out@.len() ==> (#[trigger] out@[i]).1 < y || (out@[i].1 == y && out@[i].0 < x),
                forall|i: int, j: int| 0 <= i < j < out@.len() ==> row_major_before(#[trigger] out@[i], #[trigger] out@[j]),
                forall|a: int, c: int|
                    #[trigger] road_edge(map, a, c) && (c < y || (c == y && a < x)) ==> exists|i: int|
                        0 <= i < out@.len() && out@[i].0 == a && out@[i].1 == c,
            decreases map.width - x,
        {
            let pos = GridVec::new(x, y);
            let sidewalk = match map.get_voxel_at(&pos) {
                Some(v) => match v.floor {
                    Some(Floor::Sidewalk) => true,
                    _ => false,
                },
                None => false,
            };
            if sidewalk && (is_open_ground(map, x, y + 1) || is_open_ground(map, x + 1, y) || is_open_ground(map, x, y - 1)
                || is_open_ground(map, x - 1, y)) {
                let ghost before = out@;
                out.push((x, y));
                proof {
                    assert(out@[before.len() as int] == (x, y));
                    assert forall|a: int, c: int|
                        #[trigger] road_edge(map, a, c) && (c < y || (c == y && a < x + 1)) implies exists|i: int|
                            0 <= i < out@.len() && out@[i].0 == a && out@[i].1 == c by {
                        if c == y && a == x {
                            assert(out@[before.len() as int].0 == a);
                        } else {
                            let i = choose|i: int| 0 <= i < before.len() && before[i].0 == a && before[i].1 == c;
                            assert(out@[i] == before[i]);
                        }
                    }
                }
            }
            x = x + 1;
        }
        y = y + 1;
    }
    out
}

/// Marks every street tile (road, sidewalk or bridge) as occupied.
pub fn occupy_streets(map: &mut GameMap)
    requires
        old(map).wf(),
        old(map).width <= MAX_STREET_SIDE,
        old(map).height <= MAX_STREET_SIDE,
    ensures
        final(map).wf(),
        final(map).width == old(map).width,
        final(map).height == old(map).height,
        final(map).voxels@ == old(map).voxels@,
        final(map).faction_anchors@ == old(map).faction_anchors@,
        forall|x: int, y: int|
            final(map).in_bounds(x, y) ==> #[trigger] final(map).occupied(x, y) == (old(map).occupied(x, y)
                || is_street_floor(old(map).voxel(x, y).floor)),
{
    let ghost pre = *map;
    let mut y: i32 = 0;
    while y < map.height
        invariant
            map.wf(),
            pre.wf(),
            map.width == pre.width,
            map.height == pre.height,
            map.voxels@ == pre.voxels@,
            map.faction_anchors@ == pre.faction_anchors@,
            pre.width <= MAX_STREET_SIDE,
            pre.height <= MAX_STREET_SIDE,
            0 <= y <= map.height,
            forall|a: int, c: int|
                map.in_bounds(a, c) ==> #[trigger] map.occupied(a, c) == (pre.occupied(a, c) || (c < y
                    && is_street_floor(pre.voxel(a, c).floor))),
        decreases map.height - y,
    {
        let mut x: i32 = 0;
        while x < map.width
            invariant
                map.wf(),
                pre.wf(),
                map.width == pre.width,
                map.height == pre.height,
                map.voxels@ == pre.voxels@,
                map.faction_anchors@ == pre.faction_anchors@,
                pre.width <= MAX_STREET_SIDE,
                pre.height <= MAX_STREET_SIDE,
                0 <= y < map.height,
                0 <= x <= map.width,
                forall|a: int, c: int|
                    map.in_bounds(a, c) ==> #[trigger] map.occupied(a, c) == (pre.occupied(a, c) || ((c < y || (c == y
                        && a < x)) && is_street_floor(pre.voxel(a, c).floor))),
            decreases map.width - x,
        {
            let pos = GridVec::new(x, y);
            let street = match map.get_voxel_at(&pos) {
                Some(v) => match v.floor {
                    Some(Floor::DirtRoad) | Some(Floor::Sidewalk) | Some(Floor::Bridge) => true,
                    _ => false,
                },
                None => false,
            };
            if street {
                map.mark_occupied(x, y, 1, 1);
            }
            x = x + 1;
        }
        y = y + 1;
    }
}

/// The ground of `m` after laying the avenues and then the cross streets
/// (before bridging).
pub open spec fn paved_streets(
    m: &GameMap,
    ys: Seq<i32>,
    aoffs: Seq<Seq<i32>>,
    xs: Seq<i32>,
    xoffs: Seq<Seq<i32>>,
) -> spec_fn(int, int) -> Voxel {
    |x: int, y: int|
        crosses_voxel(
            avenues_voxel(m.voxel(x, y), x, y, ys, aoffs, m.width as int, m.height as int, ys.len()),
            x,
            y,
            xs,
            xoffs,
            m.width as int,
            m.height as int,
            xs.len(),
        )
}

/// The ground of `m` once the street network is laid: avenues, cross
/// streets, then bridges.
pub open spec fn laid_streets(
    m: &GameMap,
    ys: Seq<i32>,
    aoffs: Seq<Seq<i32>>,
    xs: Seq<i32>,
    xoffs: Seq<Seq<i32>>,
) -> spec_fn(int, int) -> Voxel {
    bridges_after(paved_streets(m, ys, aoffs, xs, xoffs), ys, aoffs, m.width as int, m.height as int, ys.len())
}

/// Lays the street network on the map: the avenues on the rows
/// `avenue_ys` (meanders `avenue_curves`), the cross streets on the
/// columns `cross_xs` (meanders `cross_curves`), the bridges where the
/// avenues meet the river; marks every street tile occupied, and returns
/// the sidewalk tiles that border open ground.
pub fn lay_streets(
    map: &mut GameMap,
    avenue_ys: &[i32],
    avenue_curves: &Vec<Vec<i32>>,
    cross_xs: &[i32],
    cross_curves: &Vec<Vec<i32>>,
) -> (edges: Vec<(i32, i32)>)
    requires
        old(map).wf(),
        old(map).width <= MAX_STREET_SIDE,
        old(map).height <= MAX_STREET_SIDE,
        avenue_curves@.len() == avenue_ys@.len(),
        cross_curves@.len() == cross_xs@.len(),
        forall|k: int| 0 <= k < avenue_ys@.len() ==> -MAX_STREET_SIDE <= #[trigger] avenue_ys@[k] <= MAX_STREET_SIDE,
        forall|k: int| 0 <= k < cross_xs@.len() ==> -MAX_STREET_SIDE <= #[trigger] cross_xs@[k] <= MAX_STREET_SIDE,
        forall|k: int| 0 <= k < avenue_curves@.len() ==> curve_ok(#[trigger] avenue_curves@[k]@, old(map).width as int),
        forall|k: int| 0 <= k < cross_curves@.len() ==> curve_ok(#[trigger] cross_curves@[k]@, old(map).height as int),
    ensures
        final(map).wf(),
        final(map).width == old(map).width,
        final(map).height == old(map).height,
        final(map).faction_anchors@ == old(map).faction_anchors@,
        forall|x: int, y: int|
            final(map).in_bounds(x, y) ==> #[trigger] final(map).voxel(x, y) == laid_streets(
                old(map),
                avenue_ys@,
                curves(avenue_curves@),
                cross_xs@,
                curves(cross_curves@),
            )(x, y),
        forall|x: int, y: int|
            final(map).in_bounds(x, y) ==> #[trigger] final(map).occupied(x, y) == (old(map).occupied(x, y)
                || is_street_floor(final(map).voxel(x, y).floor)),
        forall|i: int| 0 <= i < edges@.len() ==> road_edge(final(map), (#[trigger] edges@[i]).0 as int, edges@[i].1 as int),
        forall|i: int, j: int| 0 <= i < j < edges@.len() ==> row_major_before(#[trigger] edges@[i], #[trigger] edges@[j]),
        forall|x: int, y: int|
            #[trigger] road_edge(final(map), x, y) ==> exists|i: int| 0 <= i < edges@.len() && edges@[i].0 == x && edges@[i].1 == y,
{
    let ghost pre = *map;
    let width = map.width;
    let height = map.height;
    lay_avenues(map, avenue_ys, avenue_curves, width, height);
    let ghost after_avenues = *map;
    lay_cross_streets(map, cross_xs, cross_curves, width, height);
    let ghost after_crosses = *map;
    proof {
        let g = paved_streets(&pre, avenue_ys@, curves(avenue_curves@), cross_xs@, curves(cross_curves@));
        assert forall|x: int, y: int| after_crosses.in_bounds(x, y) implies #[trigger] tiles(&after_crosses)(x, y) == g(x, y) by {
            assert(after_avenues.in_bounds(x, y));
        }
    }
    bridge_avenues(map, avenue_ys, avenue_curves, width, height);
    proof {
        let g = paved_streets(&pre, avenue_ys@, curves(avenue_curves@), cross_xs@, curves(cross_curves@));
        lemma_bridges_agree(
            tiles(&after_crosses),
            g,
            avenue_ys@,
            curves(avenue_curves@),
            width as int,
            height as int,
            avenue_ys@.len(),
        );
    }
    let ghost after_bridges = *map;
    occupy_streets(map);
    proof {
        let g = paved_streets(&pre, avenue_ys@, curves(avenue_curves@), cross_xs@, curves(cross_curves@));
        assert forall|x: int, y: int| map.in_bounds(x, y) implies #[trigger] map.voxel(x, y) == laid_streets(
            &pre,
            avenue_ys@,
            curves(avenue_curves@),
            cross_xs@,
            curves(cross_curves@),
        )(x, y) by {
            assert(map.voxel(x, y) == after_bridges.voxel(x, y));
            assert(after_bridges.in_bounds(x, y));
            assert(on_grid(width as int, height as int, x, y));
            assert(after_bridges.voxel(x, y) == bridges_after(
                tiles(&after_crosses),
                avenue_ys@,
                curves(avenue_curves@),
                width as int,
                height as int,
                avenue_ys@.len(),
            )(x, y));
        }
    }
    road_edge_tiles(map)
}

/// Bridging depends only on the tiles inside the map: two tile functions
/// that agree there give the same bridged tiles there.
proof fn lemma_bridges_agree(
    g1: spec_fn(int, int) -> Voxel,
    g2: spec_fn(int, int) -> Voxel,
    ys: Seq<i32>,
    offs: Seq<Seq<i32>>,
    w: int,
    h: int,
    k: nat,
)
    requires
        forall|x: int, y: int| on_grid(w, h, x, y) ==> #[trigger] g1(x, y) == g2(x, y),
    ensures
        forall|x: int, y: int| on_grid(w, h, x, y) ==> #[trigger] bridges_after(g1, ys, offs, w, h, k)(x, y)
            == bridges_after(g2, ys, offs, w, h, k)(x, y),
    decreases k,
{
    if k > 0 {
        lemma_bridges_agree(g1, g2, ys, offs, w, h, (k - 1) as nat);
        let p1 = bridges_after(g1, ys, offs, w, h, (k - 1) as nat);
        let p2 = bridges_after(g2, ys, offs, w, h, (k - 1) as nat);
        assert forall|x: int, y: int| on_grid(w, h, x, y) implies #[trigger] bridges_after(g1, ys, offs, w, h, k)(x, y)
            == bridges_after(g2, ys, offs, w, h, k)(x, y) by {
            let ay = ys[k - 1] as int;
            let off = offs[k - 1];
            if 1 <= x < w - 1 {
                if column_crosses(p1, x, ay, off, w, h) {
                    let y2 = choose|y2: int| in_band(y2, ay, off[x] as int, h) && is_river_floor(#[trigger] p1(x, y2).floor);
                    assert(on_grid(w, h, x, y2));
                    assert(p1(x, y2) == p2(x, y2));
                }
                if column_crosses(p2, x, ay, off, w, h) {
                    let y2 = choose|y2: int| in_band(y2, ay, off[x] as int, h) && is_river_floor(#[trigger] p2(x, y2).floor);
                    assert(on_grid(w, h, x, y2));
                    assert(p1(x, y2) == p2(x, y2));
                }
            }
        }
    }
}

/// Water and beach ground is never paved by an avenue or a cross street.
proof fn lemma_paving_spares_water(v: Voxel, x: int, y: int, ys: Seq<i32>, aoffs: Seq<Seq<i32>>, xs: Seq<i32>, xoffs: Seq<Seq<i32>>, w: int, h: int, ka: nat, kx: nat)
    requires
        is_water_floor(v.floor),
    ensures
        crosses_voxel(avenues_voxel(v, x, y, ys, aoffs, w, h, ka), x, y, xs, xoffs, w, h, kx) == v,
    decreases ka + kx,
{
    if kx > 0 {
        lemma_paving_spares_water(v, x, y, ys, aoffs, xs, xoffs, w, h, ka, (kx - 1) as nat);
    } else if ka > 0 {
        lemma_paving_spares_water(v, x, y, ys, aoffs, xs, xoffs, w, h, (ka - 1) as nat, 0);
    }
}

/// Bridging keeps river water as water or bridge.
proof fn lemma_bridging_keeps_river(g: spec_fn(int, int) -> Voxel, ys: Seq<i32>, offs: Seq<Seq<i32>>, w: int, h: int, k: nat, x: int, y: int)
    requires
        is_river_floor(g(x, y).floor) || g(x, y).floor == Some(Floor::Bridge),
    ensures
        is_river_floor(bridges_after(g, ys, offs, w, h, k)(x, y).floor) || bridges_after(g, ys, offs, w, h, k)(x, y).floor
            == Some(Floor::Bridge),
    decreases k,
{
    if k > 0 {
        lemma_bridging_keeps_river(g, ys, offs, w, h, (k - 1) as nat, x, y);
    }
}

/// Laying the street network never paves over the river: a tile of river
/// water stays river water or becomes bridge.
pub proof fn law_streets_keep_river(
    m: &GameMap,
    ys: Seq<i32>,
    aoffs: Seq<Seq<i32>>,
    xs: Seq<i32>,
    xoffs: Seq<Seq<i32>>,
    x: int,
    y: int,
)
    requires
        is_river_floor(m.voxel(x, y).floor),
    ensures
        is_river_floor(laid_streets(m, ys, aoffs, xs, xoffs)(x, y).floor) || laid_streets(m, ys, aoffs, xs, xoffs)(x, y).floor
            == Some(Floor::Bridge),
{
    let g = paved_streets(m, ys, aoffs, xs, xoffs);
    lemma_paving_spares_water(m.voxel(x, y), x, y, ys, aoffs, xs, xoffs, m.width as int, m.height as int, ys.len(), xs.len());
    assert(g(x, y) == m.voxel(x, y));
    lemma_bridging_keeps_river(g, ys, aoffs, m.width as int, m.height as int, ys.len(), x, y);
}

} // verus!
