//! Finishing passes of town generation: alleys between neighbouring
//! buildings, clearing around the spawn point and the bridge, emptying
//! water of props, and finding a start tile outside a house.
use vstd::prelude::*;

use crate::gamemap::{is_water_floor, put_voxel, same_frame, GameMap, Voxel};
use crate::graphics::{props_is_wall, Floor};
use crate::grid_vec::{dist_sq, GridVec};
use crate::town::{building_small, Building};

verus! {

/// Widest gap between two buildings that becomes an alley.
pub const ALLEY_GAP_THRESHOLD: i32 = 6;

/// The larger of two integers.
pub open spec fn imax(a: int, b: int) -> int {
    if a >= b {
        a
    } else {
        b
    }
}

/// The smaller of two integers.
pub open spec fn imin(a: int, b: int) -> int {
    if a <= b {
        a
    } else {
        b
    }
}

/// `(x, y)` lies in a gap of one to six tiles between `a` and `b`, beside
/// both: horizontally within the rows they share, or vertically within
/// the columns they share.
pub open spec fn in_alley(a: Building, b: Building, x: int, y: int) -> bool {
    let (ax, ay, aw, ah) = (a.x as int, a.y as int, a.w as int, a.h as int);
    let (bx, by, bw, bh) = (b.x as int, b.y as int, b.w as int, b.h as int);
    ||| (ay < by + bh && by < ay + ah && imax(ay, by) <= y < imin(ay + ah, by + bh) && ((1 <= bx - (ax + aw) <= 6 && ax
        + aw <= x < bx) || (1 <= ax - (bx + bw) <= 6 && bx + bw <= x < ax)))
    ||| (ax < bx + bw && bx < ax + aw && imax(ax, bx) <= x < imin(ax + aw, bx + bw) && ((1 <= by - (ay + ah) <= 6 && ay
        + ah <= y < by) || (1 <= ay - (by + bh) <= 6 && by + bh <= y < ay)))
}

/// `(x, y)` lies in an alley between some pair of buildings.
pub open spec fn alley_tile(bs: Seq<Building>, x: int, y: int) -> bool {
    exists|i: int, j: int| 0 <= i < j < bs.len() && #[trigger] in_alley(bs[i], bs[j], x, y)
}

/// An empty tile that is not a building's floor becomes alley ground.
pub open spec fn alley_paint(v: Voxel) -> Voxel {
    if v.props is None && v.floor != Some(Floor::WoodPlanks) && v.floor != Some(Floor::StoneFloor) {
        Voxel { floor: Some(Floor::Alley), props: v.props }
    } else {
        v
    }
}

/// Lays alley ground on the on-map tiles of `[x0, x1) x [y0, y1)`.
fn paint_alley_rect(map: &mut GameMap, x0: i32, x1: i32, y0: i32, y1: i32)
    requires
        old(map).wf(),
    ensures
        same_frame(final(map), old(map)),
        forall|x: int, y: int|
            final(map).in_bounds(x, y) ==> #[trigger] final(map).voxel(x, y) == if x0 <= x < x1 && y0 <= y < y1 {
                alley_paint(old(map).voxel(x, y))
            } else {
                old(map).voxel(x, y)
            },
{
    let ghost pre = *map;
    let mut y = y0;
    while y < y1
        invariant
            pre.wf(),
            same_frame(&*map, &pre),
            (y0 <= y <= y1) || (y1 < y0 && y == y0),
            forall|a: int, c: int|
                map.in_bounds(a, c) ==> #[trigger] map.voxel(a, c) == if x0 <= a < x1 && y0 <= c < y {
                    alley_paint(pre.voxel(a, c))
                } else {
                    pre.voxel(a, c)
                },
        decreases y1 - y,
    {
        let mut x = x0;
        while x < x1
            invariant
                pre.wf(),
                same_frame(&*map, &pre),
                y0 <= y < y1,
                (x0 <= x <= x1) || (x1 < x0 && x == x0),
                forall|a: int, c: int|
                    map.in_bounds(a, c) ==> #[trigger] map.voxel(a, c) == if x0 <= a < x1 && (y0 <= c < y || (c == y && a
                        < x)) {
                        alley_paint(pre.voxel(a, c))
                    } else {
                        pre.voxel(a, c)
                    },
            decreases x1 - x,
        {
            let pos = GridVec::new(x, y);
            match map.get_voxel_at(&pos) {
                Some(v) => {
                    let building_floor = match v.floor {
                        Some(Floor::WoodPlanks) | Some(Floor::StoneFloor) => true,
                        _ => false,
                    };
                    if v.props.is_none() && !building_floor {
                        put_voxel(map, x, y, Voxel { floor: Some(Floor::Alley), props: v.props });
                    }
                },
                None => {},
            }
            x = x + 1;
        }
        y = y + 1;
    }
}

/// Lays the alleys between `a` and `b` (see `in_alley`).
fn alley_between(map: &mut GameMap, a: Building, b: Building)
    requires
        old(map).wf(),
        building_small(a),
        building_small(b),
    ensures
        same_frame(final(map), old(map)),
        forall|x: int, y: int|
            final(map).in_bounds(x, y) ==> #[trigger] final(map).voxel(x, y) == if in_alley(a, b, x, y) {
                alley_paint(old(map).voxel(x, y))
            } else {
                old(map).voxel(x, y)
            },
{
    let ghost pre = *map;
    if a.y < b.y + b.h && b.y < a.y + a.h {
        let y0 = if a.y > b.y { a.y } else { b.y };
        let y1 = if a.y + a.h < b.y + b.h { a.y + a.h } else { b.y + b.h };
        let gap = b.x - (a.x + a.w);
        if gap >= 1 && gap <= ALLEY_GAP_THRESHOLD {
            paint_alley_rect(map, a.x + a.w, b.x, y0, y1);
        }
        let gap_rev = a.x - (b.x + b.w);
        if gap_rev >= 1 && gap_rev <= ALLEY_GAP_THRESHOLD {
            paint_alley_rect(map, b.x + b.w, a.x, y0, y1);
        }
    }
    let ghost mid = *map;
    if a.x < b.x + b.w && b.x < a.x + a.w {
        let x0 = if a.x > b.x { a.x } else { b.x };
        let x1 = if a.x + a.w < b.x + b.w { a.x + a.w } else { b.x + b.w };
        let gap = b.y - (a.y + a.h);
        if gap >= 1 && gap <= ALLEY_GAP_THRESHOLD {
            paint_alley_rect(map, x0, x1, a.y + a.h, b.y);
        }
        let gap_rev = a.y - (b.y + b.h);
        if gap_rev >= 1 && gap_rev <= ALLEY_GAP_THRESHOLD {
            paint_alley_rect(map, x0, x1, b.y + b.h, a.y);
        }
    }
}

/// Lays narrow alley ground in the gaps of one to six tiles between
/// neighbouring buildings, over empty tiles that are not building floor.
pub fn place_alleys(map: &mut GameMap, buildings: &[Building])
    requires
        old(map).wf(),
        forall|i: int| 0 <= i < buildings@.len() ==> building_small(#[trigger] buildings@[i]),
    ensures
        same_frame(final(map), old(map)),
        forall|x: int, y: int|
            final(map).in_bounds(x, y) ==> #[trigger] final(map).voxel(x, y) == if alley_tile(buildings@, x, y) {
                alley_paint(old(map).voxel(x, y))
            } else {
                old(map).voxel(x, y)
            },
{
    let ghost pre = *map;
    let ghost bs = buildings@;
    let mut i: usize = 0;
    while i < buildings.len()
        invariant
            pre.wf(),
            same_frame(&*map, &pre),
            bs == buildings@,
            i <= bs.len(),
            forall|k: int| 0 <= k < bs.len() ==> building_small(#[trigger] bs[k]),
            forall|x: int, y: int|
                map.in_bounds(x, y) ==> #[trigger] map.voxel(x, y) == if exists|p: int, q: int|
                    0 <= p < i && p < q < bs.len() && #[trigger] in_alley(bs[p], bs[q], x, y) {
                    alley_paint(pre.voxel(x, y))
                } else {
                    pre.voxel(x, y)
                },
        decreases bs.len() - i,
    {
        let a = buildings[i];
        proof {
            assert(building_small(bs[i as int]));
        }
        let mut j: usize = i + 1;
        while j < buildings.len()
            invariant
                pre.wf(),
                same_frame(&*map, &pre),
                bs == buildings@,
                i < j <= bs.len(),
                a == bs[i as int],
                building_small(a),
                forall|k: int| 0 <= k < bs.len() ==> building_small(#[trigger] bs[k]),
                forall|x: int, y: int|
                    map.in_bounds(x, y) ==> #[trigger] map.voxel(x, y) == if (exists|p: int, q: int|
                        0 <= p < i && p < q < bs.len() && #[trigger] in_alley(bs[p], bs[q], x, y)) || (exists|q: int|
                        i < q < j && #[trigger] in_alley(a, bs[q], x, y)) {
                        alley_paint(pre.voxel(x, y))
                    } else {
                        pre.voxel(x, y)
                    },
            decreases bs.len() - j,
        {
            let b = buildings[j];
            proof {
                assert(building_small(bs[j as int]));
            }
            let ghost cur = *map;
            alley_between(map, a, b);
            proof {
                assert forall|x: int, y: int| map.in_bounds(x, y) implies #[trigger] map.voxel(x, y) == if (exists|p: int, q: int|
                    0 <= p < i && p < q < bs.len() && #[trigger] in_alley(bs[p], bs[q], x, y)) || (exists|q: int|
                    i < q < j + 1 && #[trigger] in_alley(a, bs[q], x, y)) {
                    alley_paint(pre.voxel(x, y))
                } else {
                    pre.voxel(x, y)
                } by {
                    assert(cur.in_bounds(x, y));
                    if in_alley(a, b, x, y) {
                        assert(bs[j as int] == b);
                    }
                    if exists|q: int| i < q < j + 1 && #[trigger] in_alley(a, bs[q], x, y) {
                        let q = choose|q: int| i < q < j + 1 && #[trigger] in_alley(a, bs[q], x, y);
                        if q < j {
                            assert(exists|q2: int| i < q2 < j && #[trigger] in_alley(a, bs[q2], x, y));
                        }
                    }
                }
            }
            j = j + 1;
        }
        proof {
            assert forall|x: int, y: int| map.in_bounds(x, y) implies #[trigger] map.voxel(x, y) == if exists|p: int, q: int|
                0 <= p < i + 1 && p < q < bs.len() && #[trigger] in_alley(bs[p], bs[q], x, y) {
                alley_paint(pre.voxel(x, y))
            } else {
                pre.voxel(x, y)
            } by {
                if exists|q: int| i < q < bs.len() && #[trigger] in_alley(a, bs[q], x, y) {
                    let q = choose|q: int| i < q < bs.len() && #[trigger] in_alley(a, bs[q], x, y);
                    assert(in_alley(bs[i as int], bs[q], x, y));
                }
                if exists|p: int, q: int| 0 <= p < i + 1 && p < q < bs.len() && #[trigger] in_alley(bs[p], bs[q], x, y) {
                    let (p, q) = choose|p: int, q: int| 0 <= p < i + 1 && p < q < bs.len() && #[trigger] in_alley(bs[p], bs[q], x, y);
                    if p == i {
                        assert(exists|q2: int| i < q2 < bs.len() && #[trigger] in_alley(a, bs[q2], x, y));
                    }
                }
            }
        }
        i = i + 1;
    }
}

/// A cleared voxel: no prop, and water or beach turned to dirt.
pub open spec fn cleared_ground(v: Voxel) -> Voxel {
    Voxel {
        floor: if is_water_floor(v.floor) {
            Some(Floor::Dirt)
        } else {
            v.floor
        },
        props: None,
    }
}

/// `(x, y)` is on the map's outermost ring of tiles.
pub open spec fn on_border(m: &GameMap, x: int, y: int) -> bool {
    x == 0 || y == 0 || x == m.width - 1 || y == m.height - 1
}

/// `(x, y)` is cleared around `center`: within `radius` along both axes
/// and within Euclidean distance `radius` of it.
pub open spec fn in_clearing(center: GridVec, radius: int, x: int, y: int) -> bool {
    -radius <= x - center.x <= radius && -radius <= y - center.y <= radius && dist_sq(gv_of(x, y), center) <= radius
        * radius
}

/// The point `(x, y)`.
pub open spec fn gv_of(x: int, y: int) -> GridVec {
    GridVec { x: x as i32, y: y as i32 }
}

/// Clears the tiles within `radius` (Euclidean) of `center`, except the
/// map's border: props are removed and water or beach becomes dirt, so the
/// area is walkable.
pub fn clear_around(map: &mut GameMap, center: GridVec, radius: i32)
    requires
        old(map).wf(),
        -0x100_0000 <= center.x <= 0x100_0000,
        -0x100_0000 <= center.y <= 0x100_0000,
        -30000 <= radius <= 30000,
    ensures
        same_frame(final(map), old(map)),
        forall|x: int, y: int|
            final(map).in_bounds(x, y) ==> #[trigger] final(map).voxel(x, y) == if in_clearing(center, radius as int, x, y)
                && !on_border(old(map), x, y) {
                cleared_ground(old(map).voxel(x, y))
            } else {
                old(map).voxel(x, y)
            },
{
    let ghost pre = *map;
    let ghost r = radius as int;
    assert(0 <= radius * radius <= 900_000_000) by (nonlinear_arith)
        requires
            -30000 <= radius <= 30000,
    ;
    let radius_sq = radius * radius;
    let mut dy: i32 = -radius;
    while dy <= radius
        invariant
            pre.wf(),
            same_frame(&*map, &pre),
            -0x100_0000 <= center.x <= 0x100_0000,
            -0x100_0000 <= center.y <= 0x100_0000,
            -30000 <= radius <= 30000,
            r == radius,
            radius_sq == radius * radius,
            (-radius <= dy <= radius + 1) || (radius < 0 && dy == -radius),
            forall|x: int, y: int|
                map.in_bounds(x, y) ==> #[trigger] map.voxel(x, y) == if in_clearing(center, r, x, y) && y - center.y < dy
                    && !on_border(&pre, x, y) {
                    cleared_ground(pre.voxel(x, y))
                } else {
                    pre.voxel(x, y)
                },
        decreases radius + 1 - dy,
    {
        let mut dx: i32 = -radius;
        while dx <= radius
            invariant
                pre.wf(),
                same_frame(&*map, &pre),
                -0x100_0000 <= center.x <= 0x100_0000,
                -0x100_0000 <= center.y <= 0x100_0000,
                0 <= radius <= 30000,
                r == radius,
                radius_sq == radius * radius,
                -radius <= dy <= radius,
                -radius <= dx <= radius + 1,
                forall|x: int, y: int|
                    map.in_bounds(x, y) ==> #[trigger] map.voxel(x, y) == if in_clearing(center, r, x, y) && (y - center.y < dy
                        || (y - center.y == dy && x - center.x < dx)) && !on_border(&pre, x, y) {
                        cleared_ground(pre.voxel(x, y))
                    } else {
                        pre.voxel(x, y)
                    },
            decreases radius + 1 - dx,
        {
            let px = center.x + dx;
            let py = center.y + dy;
            assert(0 <= dx * dx <= 900_000_000 && 0 <= dy * dy <= 900_000_000) by (nonlinear_arith)
                requires
                    -30000 <= dx <= 30000,
                    -30000 <= dy <= 30000,
            ;
            let dsq = dx * dx + dy * dy;
            proof {
                assert(dist_sq(gv_of(px as int, py as int), center) == dx * dx + dy * dy);
            }
            if dsq <= radius_sq {
                let pos = GridVec::new(px, py);
                match map.get_voxel_at(&pos) {
                    Some(v) => {
                        let border = px == 0 || py == 0 || px == map.width - 1 || py == map.height - 1;
                        if !border {
                            let floor = match v.floor {
                                Some(Floor::ShallowWater) | Some(Floor::DeepWater) | Some(Floor::Beach) | Some(
                                    Floor::BeachSand,
                                ) => Some(Floor::Dirt),
                                other => other,
                            };
                            put_voxel(map, px, py, Voxel { floor, props: None });
                        }
                    },
                    None => {},
                }
            }
            dx = dx + 1;
        }
        dy = dy + 1;
    }
}

/// Removes every prop standing on water or beach.
pub fn clear_water_props(map: &mut GameMap)
    requires
        old(map).wf(),
    ensures
        same_frame(final(map), old(map)),
        forall|x: int, y: int|
            final(map).in_bounds(x, y) ==> #[trigger] final(map).voxel(x, y) == if is_water_floor(old(map).voxel(x, y).floor) {
                Voxel { floor: old(map).voxel(x, y).floor, props: None }
            } else {
                old(map).voxel(x, y)
            },
{
    let ghost pre = *map;
    let mut y: i32 = 0;
    while y < map.height
        invariant
            pre.wf(),
            same_frame(&*map, &pre),
            0 <= y <= pre.height,
            forall|a: int, c: int|
                map.in_bounds(a, c) ==> #[trigger] map.voxel(a, c) == if c < y && is_water_floor(pre.voxel(a, c).floor) {
                    Voxel { floor: pre.voxel(a, c).floor, props: None }
                } else {
                    pre.voxel(a, c)
                },
        decreases pre.height - y,
    {
        let mut x: i32 = 0;
        while x < map.width
            invariant
                pre.wf(),
                same_frame(&*map, &pre),
                0 <= y < pre.height,
                0 <= x <= pre.width,
                forall|a: int, c: int|
                    map.in_bounds(a, c) ==> #[trigger] map.voxel(a, c) == if (c < y || (c == y && a < x)) && is_water_floor(
                        pre.voxel(a, c).floor,
                    ) {
                        Voxel { floor: pre.voxel(a, c).floor, props: None }
                    } else {
                        pre.voxel(a, c)
                    },
            decreases pre.width - x,
        {
            let pos = GridVec::new(x, y);
            match map.get_voxel_at(&pos) {
                Some(v) => {
                    let water = match v.floor {
                        Some(Floor::ShallowWater) | Some(Floor::DeepWater) | Some(Floor::Beach) | Some(Floor::BeachSand) => true,
                        _ => false,
                    };
                    if water {
                        put_voxel(map, x, y, Voxel { floor: v.floor, props: None });
                    }
                },
                None => {},
            }
            x = x + 1;
        }
        y = y + 1;
    }
}

/// Where the start area is cleared: the spawn point when it lies on the
/// `width` by `height` map, else the map's centre.
pub fn spawn_clearing_center(spawn: GridVec, width: i32, height: i32) -> (r: GridVec)
    requires
        0 <= width,
        0 <= height,
    ensures
        r == if 0 <= spawn.x < width && 0 <= spawn.y < height {
            spawn
        } else {
            GridVec { x: (width / 2) as i32, y: (height / 2) as i32 }
        },
{
    if spawn.x >= 0 && spawn.x < width && spawn.y >= 0 && spawn.y < height {
        spawn
    } else {
        GridVec::new(width / 2, height / 2)
    }
}

/// Ground on which a player can start.
pub open spec fn start_floor(f: Option<Floor>) -> bool {
    f == Some(Floor::Dirt) || f == Some(Floor::DirtRoad) || f == Some(Floor::Sand) || f == Some(Floor::Gravel) || f
        == Some(Floor::Grass) || f == Some(Floor::Sidewalk)
}

/// `(x, y)` holds a wall.
pub open spec fn wall_at(m: &GameMap, x: int, y: int) -> bool {
    m.in_bounds(x, y) && match m.voxel(x, y).props {
        Some(p) => props_is_wall(p),
        None => false,
    }
}

/// `(x, y)` is an empty start tile right outside a building: on the map,
/// no prop, open ground, a wall on one of its four sides.
pub open spec fn house_exterior(m: &GameMap, x: int, y: int) -> bool {
    &&& m.in_bounds(x, y)
    &&& m.voxel(x, y).props is None
    &&& start_floor(m.voxel(x, y).floor)
    &&& (wall_at(m, x, y + 1) || wall_at(m, x + 1, y) || wall_at(m, x, y - 1) || wall_at(m, x - 1, y))
}

/// The search window around `spawn`: within 40 tiles of it along both
/// axes, and inside the map's border.
pub open spec fn near_spawn(m: &GameMap, spawn: GridVec, x: int, y: int) -> bool {
    &&& imax(spawn.y - 40, 1) <= y <= imin(spawn.y + 40, m.height - 2)
    &&& imax(spawn.x - 40, 1) <= x <= imin(spawn.x + 40, m.width - 2)
}

/// Whether `(x, y)` holds a wall.
fn wall_tile(map: &GameMap, x: i32, y: i32) -> (r: bool)
    requires
        map.wf(),
    ensures
        r == wall_at(map, x as int, y as int),
{
    match map.get_voxel_at(&GridVec::new(x, y)) {
        Some(v) => match v.props {
            Some(p) => p.is_wall(),
            None => false,
        },
        None => false,
    }
}

/// A tile right outside a building door near `spawn`: the first, row by
/// row, of the tiles within 40 of it (inside the map's border) that is
/// empty open ground beside a wall.
pub fn find_house_exterior(map: &GameMap, spawn: GridVec) -> (r: Option<GridVec>)
    requires
        map.wf(),
        -0x100_0000 <= spawn.x <= 0x100_0000,
        -0x100_0000 <= spawn.y <= 0x100_0000,
    ensures
        match r {
            Some(p) => near_spawn(map, spawn, p.x as int, p.y as int) && house_exterior(map, p.x as int, p.y as int) && forall|
                x: int,
                y: int,
            |
                #![trigger house_exterior(map, x, y)]
                near_spawn(map, spawn, x, y) && house_exterior(map, x, y) ==> !(y < p.y || (y == p.y && x < p.x)),
            None => forall|x: int, y: int|
                #![trigger house_exterior(map, x, y)]
                near_spawn(map, spawn, x, y) ==> !house_exterior(map, x, y),
        },
{
    let y0 = if spawn.y - 40 > 1 { spawn.y - 40 } else { 1 };
    let y1 = if spawn.y + 40 < map.height - 2 { spawn.y + 40 } else { map.height - 2 };
    let x0 = if spawn.x - 40 > 1 { spawn.x - 40 } else { 1 };
    let x1 = if spawn.x + 40 < map.width - 2 { spawn.x + 40 } else { map.width - 2 };
    let mut y = y0;
    while y <= y1
        invariant
            map.wf(),
            -0x100_0000 <= spawn.x <= 0x100_0000,
            -0x100_0000 <= spawn.y <= 0x100_0000,
            y0 == imax(spawn.y - 40, 1),
            y1 == imin(spawn.y + 40, map.height - 2),
            x0 == imax(spawn.x - 40, 1),
            x1 == imin(spawn.x + 40, map.width - 2),
            (y0 <= y <= y1 + 1) || (y1 < y0 && y == y0),
            forall|x: int, c: int|
                #![trigger house_exterior(map, x, c)]
                near_spawn(map, spawn, x, c) && c < y ==> !house_exterior(map, x, c),
        decreases y1 + 1 - y,
    {
        let mut x = x0;
        while x <= x1
            invariant
                map.wf(),
                -0x100_0000 <= spawn.x <= 0x100_0000,
                -0x100_0000 <= spawn.y <= 0x100_0000,
                y0 == imax(spawn.y - 40, 1),
                y1 == imin(spawn.y + 40, map.height - 2),
                x0 == imax(spawn.x - 40, 1),
                x1 == imin(spawn.x + 40, map.width - 2),
                y0 <= y <= y1,
                (x0 <= x <= x1 + 1) || (x1 < x0 && x == x0),
                forall|a: int, c: int|
                    #![trigger house_exterior(map, a, c)]
                    near_spawn(map, spawn, a, c) && (c < y || (c == y && a < x)) ==> !house_exterior(map, a, c),
            decreases x1 + 1 - x,
        {
            let pos = GridVec::new(x, y);
            match map.get_voxel_at(&pos) {
                Some(v) => {
                    let open = match v.floor {
                        Some(Floor::Dirt) | Some(Floor::DirtRoad) | Some(Floor::Sand) | Some(Floor::Gravel) | Some(
                            Floor::Grass,
                        ) | Some(Floor::Sidewalk) => true,
                        _ => false,
                    };
                    if v.props.is_none() && open && (wall_tile(map, x, y + 1) || wall_tile(map, x + 1, y) || wall_tile(
                        map,
                        x,
                        y - 1,
                    ) || wall_tile(map, x - 1, y)) {
                        proof {
                            assert(house_exterior(map, x as int, y as int));
                        }
                        return Some(pos);
                    }
                },
                None => {},
            }
            x = x + 1;
        }
        y = y + 1;
    }
    None
}

} // verus!
