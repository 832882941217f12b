//! Decoration passes of town generation: lamp posts along the cross
//! streets, props on the road edges, scatter in the open lots, props
//! around each building, desert scrub and gunpowder barrels.
use vstd::prelude::*;

use crate::gamemap::{prop_allowed, same_frame, set_prop, GameMap, Voxel};
use crate::graphics::{props_is_wall, Floor, Props};
use crate::grid_vec::GridVec;
use crate::rules::half_toward_zero;
use crate::town::{building_small, Building};
use crate::landmarks::{place_props, put_all};
use crate::noise::{
    fraction_above, fraction_below, fraction_scaled, noise2d_spec, noise_above, noise_below, noise_scaled, wadd64,
    NoiseSeed,
};

verus! {

/// Ground a lamp post may stand on.
pub open spec fn lamp_floor(f: Option<Floor>) -> bool {
    f == Some(Floor::Sidewalk) || f == Some(Floor::DirtRoad) || f == Some(Floor::Sand)
}

/// Row `y` is one of the rows tried for lamp posts: every twelfth row from
/// 40, ending 40 rows before the bottom.
pub open spec fn lamp_row(height: int, y: int) -> bool {
    40 <= y < height - 40 && (y - 40) % 12 == 0
}

/// Seed of the lamp posts.
pub open spec fn lamp_seed(seed: u64) -> u64 {
    wadd64(seed, 111333)
}

/// A lamp post goes on `(a, c)`: a tried row whose noise at the street
/// centre is at most 0.4, three tiles either side of the centre, on the
/// map, empty, on sidewalk, road or sand, and accepted by `set_prop`.
pub open spec fn lamp_tile(m: &GameMap, height: int, street_x: int, seed: u64, a: int, c: int) -> bool {
    &&& lamp_row(height, c)
    &&& !fraction_above(noise2d_spec(street_x as i32, c as i32, lamp_seed(seed)), 2, 5)
    &&& (a == street_x - 3 || a == street_x + 3)
    &&& m.in_bounds(a, c)
    &&& m.voxel(a, c).props is None
    &&& lamp_floor(m.voxel(a, c).floor)
    &&& prop_allowed(m, a, c)
}

/// `v` with `p` standing on it.
pub open spec fn with_prop(v: Voxel, p: Props) -> Voxel {
    Voxel { floor: v.floor, props: Some(p) }
}

/// Whether `f` is ground a lamp post may stand on.
fn is_lamp_floor(f: Option<Floor>) -> (r: bool)
    ensures
        r == lamp_floor(f),
{
    match f {
        Some(Floor::Sidewalk) | Some(Floor::DirtRoad) | Some(Floor::Sand) => true,
        _ => false,
    }
}

/// Places lamp posts along the cross street centred on `street_x`: on
/// every twelfth row from 40 to `height - 40`, unless the noise there is
/// above 0.4, one on each side of the street three tiles from its centre,
/// where the tile is empty sidewalk, road or sand.
pub fn place_lamp_posts(map: &mut GameMap, height: i32, street_x: i32, seed: NoiseSeed)
    requires
        old(map).wf(),
        i32::MIN + 3 <= street_x <= i32::MAX - 3,
    ensures
        same_frame(final(map), old(map)),
        forall|a: int, c: int|
            final(map).in_bounds(a, c) ==> #[trigger] final(map).voxel(a, c) == if lamp_tile(
                old(map),
                height as int,
                street_x as int,
                seed,
                a,
                c,
            ) {
                with_prop(old(map).voxel(a, c), Props::LampPost)
            } else {
                old(map).voxel(a, c)
            },
{
    let ghost m0 = *map;
    let ls = seed.wrapping_add(111333);
    let end: i64 = height as i64 - 40;
    let mut y: i64 = 40;
    while y < end
        invariant
            same_frame(&*map, &m0),
            m0.wf(),
            end == height - 40,
            40 <= y,
            y == 40 || y <= end + 11,
            (y - 40) % 12 == 0,
            ls == lamp_seed(seed),
            i32::MIN + 3 <= street_x <= i32::MAX - 3,
            forall|a: int, c: int|
                map.in_bounds(a, c) ==> #[trigger] map.voxel(a, c) == if c < y && lamp_tile(
                    &m0,
                    height as int,
                    street_x as int,
                    seed,
                    a,
                    c,
                ) {
                    with_prop(m0.voxel(a, c), Props::LampPost)
                } else {
                    m0.voxel(a, c)
                },
        decreases end + 12 - y,
    {
        let yy = y as i32;
        if !noise_above(street_x, yy, ls, 2, 5) {
            let mut k: usize = 0;
            while k < 2
                invariant
                    same_frame(&*map, &m0),
                    m0.wf(),
                    k <= 2,
                    40 <= y < end,
                    yy == y,
                    (y - 40) % 12 == 0,
                    end == height - 40,
                    ls == lamp_seed(seed),
                    !fraction_above(noise2d_spec(street_x, yy, ls), 2, 5),
                    i32::MIN + 3 <= street_x <= i32::MAX - 3,
                    forall|a: int, c: int|
                        map.in_bounds(a, c) ==> #[trigger] map.voxel(a, c) == if (c < y || (c == y && (k > 0
                            && a == street_x - 3 || k > 1 && a == street_x + 3))) && lamp_tile(
                            &m0,
                            height as int,
                            street_x as int,
                            seed,
                            a,
                            c,
                        ) {
                            with_prop(m0.voxel(a, c), Props::LampPost)
                        } else {
                            m0.voxel(a, c)
                        },
                decreases 2 - k,
            {
                let x = if k == 0 { street_x - 3 } else { street_x + 3 };
                let pos = GridVec { x, y: yy };
                let ghost pre = *map;
                match map.get_voxel_at(&pos) {
                    Some(v) => {
                        let empty = v.props.is_none();
                        let ground = is_lamp_floor(v.floor);
                        if empty && ground {
                            set_prop(map, x, yy, Props::LampPost);
                        }
                    },
                    None => {},
                }
                proof {
                    assert forall|a: int, c: int| map.in_bounds(a, c) implies #[trigger] map.voxel(a, c) == if (c
                        < y || (c == y && (k + 1 > 0 && a == street_x - 3 || k + 1 > 1 && a == street_x + 3)))
                        && lamp_tile(&m0, height as int, street_x as int, seed, a, c) {
                        with_prop(m0.voxel(a, c), Props::LampPost)
                    } else {
                        m0.voxel(a, c)
                    } by {
                        assert(pre.in_bounds(a, c));
                        if a == x && c == y {
                            assert(pre.voxel(a, c) == m0.voxel(a, c));
                        }
                    }
                }
                k = k + 1;
            }
        } else {
            proof {
                assert forall|a: int, c: int| map.in_bounds(a, c) && c == y implies !#[trigger] lamp_tile(
                    &m0,
                    height as int,
                    street_x as int,
                    seed,
                    a,
                    c,
                ) by {}
            }
        }
        proof {
            assert forall|a: int, c: int| map.in_bounds(a, c) && y < c < y + 12 implies !#[trigger] lamp_tile(
                &m0,
                height as int,
                street_x as int,
                seed,
                a,
                c,
            ) by {}
        }
        y = y + 12;
    }
}

/// Ground a gunpowder barrel may stand on.
pub open spec fn barrel_floor(f: Option<Floor>) -> bool {
    f == Some(Floor::Dirt) || f == Some(Floor::Sand) || f == Some(Floor::Gravel) || f == Some(Floor::Sidewalk) || f
        == Some(Floor::WoodPlanks) || f == Some(Floor::StoneFloor)
}

/// `(a, c)` is on the map and holds a wall.
pub open spec fn wall_at(m: &GameMap, a: int, c: int) -> bool {
    &&& m.in_bounds(a, c)
    &&& m.voxel(a, c).props matches Some(p) && props_is_wall(p)
}

/// One of the four tiles beside `(a, c)` holds a wall.
pub open spec fn next_to_wall(m: &GameMap, a: int, c: int) -> bool {
    wall_at(m, a, c - 1) || wall_at(m, a + 1, c) || wall_at(m, a, c + 1) || wall_at(m, a - 1, c)
}

/// Seed of the gunpowder barrels.
pub open spec fn barrel_seed(seed: u64) -> u64 {
    wadd64(seed, 131313)
}

/// Squared distance from `(a, c)` to `p`.
pub open spec fn dist_sq_to(a: int, c: int, p: GridVec) -> int {
    (a - p.x) * (a - p.x) + (c - p.y) * (c - p.y)
}

/// A gunpowder barrel goes on `(a, c)`: inside the two-tile margin of the
/// `width` by `height` area, on the map, empty, on dirt, sand, gravel,
/// sidewalk, planks or stone, at least ten tiles from `spawn`, where the
/// noise is at most 0.015, and next to a wall or where a second noise is
/// below 0.3; and `set_prop` accepts it.
pub open spec fn barrel_tile(m: &GameMap, width: int, height: int, seed: u64, spawn: GridVec, a: int, c: int) -> bool {
    &&& 2 <= a < width - 2
    &&& 2 <= c < height - 2
    &&& m.in_bounds(a, c)
    &&& m.voxel(a, c).props is None
    &&& barrel_floor(m.voxel(a, c).floor)
    &&& dist_sq_to(a, c, spawn) >= 100
    &&& !fraction_above(noise2d_spec(a as i32, c as i32, barrel_seed(seed)), 3, 200)
    &&& (next_to_wall(m, a, c) || fraction_below(
        noise2d_spec(c as i32, a as i32, wadd64(barrel_seed(seed), 111)),
        3,
        10,
    ))
    &&& prop_allowed(m, a, c)
}

/// Whether `f` is ground a gunpowder barrel may stand on.
fn is_barrel_floor(f: Option<Floor>) -> (r: bool)
    ensures
        r == barrel_floor(f),
{
    match f {
        Some(Floor::Dirt) | Some(Floor::Sand) | Some(Floor::Gravel) | Some(Floor::Sidewalk) | Some(Floor::WoodPlanks)
        | Some(Floor::StoneFloor) => true,
        _ => false,
    }
}

/// Whether `(x, y)` is on the map and holds a wall.
fn wall_on(map: &GameMap, x: i64, y: i64) -> (r: bool)
    requires
        map.wf(),
    ensures
        r == wall_at(map, x as int, y as int),
{
    if x < 0 || y < 0 || x >= map.width as i64 || y >= map.height as i64 {
        return false;
    }
    match map.voxels[y as usize][x as usize].props {
        Some(p) => p.is_wall(),
        None => false,
    }
}

/// Squared distance from `(x, y)` to `p`, computed without overflow.
fn distance_sq_to(x: i64, y: i64, p: GridVec) -> (r: i128)
    requires
        i32::MIN <= x <= i32::MAX,
        i32::MIN <= y <= i32::MAX,
    ensures
        r == dist_sq_to(x as int, y as int, p),
{
    let dx: i128 = x as i128 - p.x as i128;
    let dy: i128 = y as i128 - p.y as i128;
    proof {
        assert(dx * dx <= 0x1_0000_0000 * 0x1_0000_0000) by (nonlinear_arith)
            requires -0x1_0000_0000 <= dx <= 0x1_0000_0000;
        assert(dy * dy <= 0x1_0000_0000 * 0x1_0000_0000) by (nonlinear_arith)
            requires -0x1_0000_0000 <= dy <= 0x1_0000_0000;
        assert(0 <= dx * dx) by (nonlinear_arith);
        assert(0 <= dy * dy) by (nonlinear_arith);
    }
    dx * dx + dy * dy
}

/// Scatters gunpowder barrels over the `width` by `height` area: on empty
/// dirt, sand, gravel, sidewalk, plank or stone tiles at least ten tiles
/// from `spawn` where the noise is at most 0.015, if a wall stands beside
/// the tile or a second noise there is below 0.3.
pub fn place_gunpowder_barrels(map: &mut GameMap, width: i32, height: i32, seed: NoiseSeed, spawn: GridVec)
    requires
        old(map).wf(),
    ensures
        same_frame(final(map), old(map)),
        forall|a: int, c: int|
            final(map).in_bounds(a, c) ==> #[trigger] final(map).voxel(a, c) == if barrel_tile(
                old(map),
                width as int,
                height as int,
                seed,
                spawn,
                a,
                c,
            ) {
                with_prop(old(map).voxel(a, c), Props::GunpowderBarrel)
            } else {
                old(map).voxel(a, c)
            },
{
    let ghost m0 = *map;
    let bs = seed.wrapping_add(131313);
    let bs2 = bs.wrapping_add(111);
    let xe: i64 = width as i64 - 2;
    let ye: i64 = height as i64 - 2;
    let mut y: i64 = 2;
    while y < ye
        invariant
            same_frame(&*map, &m0),
            m0.wf(),
            xe == width - 2,
            ye == height - 2,
            2 <= y,
            y == 2 || y <= ye,
            bs == barrel_seed(seed),
            bs2 == wadd64(barrel_seed(seed), 111),
            forall|a: int, c: int|
                map.in_bounds(a, c) ==> #[trigger] map.voxel(a, c) == if c < y && barrel_tile(
                    &m0,
                    width as int,
                    height as int,
                    seed,
                    spawn,
                    a,
                    c,
                ) {
                    with_prop(m0.voxel(a, c), Props::GunpowderBarrel)
                } else {
                    m0.voxel(a, c)
                },
        decreases ye + 1 - y,
    {
        let mut x: i64 = 2;
        while x < xe
            invariant
                same_frame(&*map, &m0),
                m0.wf(),
                xe == width - 2,
                ye == height - 2,
                2 <= y < ye,
                2 <= x,
                x == 2 || x <= xe,
                bs == barrel_seed(seed),
                bs2 == wadd64(barrel_seed(seed), 111),
                forall|a: int, c: int|
                    map.in_bounds(a, c) ==> #[trigger] map.voxel(a, c) == if (c < y || (c == y && a < x))
                        && barrel_tile(&m0, width as int, height as int, seed, spawn, a, c) {
                        with_prop(m0.voxel(a, c), Props::GunpowderBarrel)
                    } else {
                        m0.voxel(a, c)
                    },
            decreases xe + 1 - x,
        {
            let ghost pre = *map;
            proof {
                assert forall|a: int, c: int| #[trigger] wall_at(&pre, a, c) == wall_at(&m0, a, c) by {
                    if pre.in_bounds(a, c) {
                        assert(pre.voxel(a, c) == m0.voxel(a, c) || m0.voxel(a, c).props is None);
                    }
                }
            }
            if x < map.width as i64 && y < map.height as i64 {
                let v = map.voxels[y as usize][x as usize];
                proof {
                    assert(v == map.voxel(x as int, y as int));
                    assert(v == m0.voxel(x as int, y as int));
                }
                if v.props.is_none() && is_barrel_floor(v.floor) && distance_sq_to(x, y, spawn) >= 100 {
                    let xi = x as i32;
                    let yi = y as i32;
                    if !noise_above(xi, yi, bs, 3, 200) {
                        let near = wall_on(map, x, y - 1) || wall_on(map, x + 1, y) || wall_on(map, x, y + 1)
                            || wall_on(map, x - 1, y);
                        if near || noise_below(yi, xi, bs2, 3, 10) {
                            set_prop(map, xi, yi, Props::GunpowderBarrel);
                        }
                    }
                }
            }
            proof {
                assert forall|a: int, c: int| map.in_bounds(a, c) implies #[trigger] map.voxel(a, c) == if (c < y
                    || (c == y && a < x + 1)) && barrel_tile(&m0, width as int, height as int, seed, spawn, a, c) {
                    with_prop(m0.voxel(a, c), Props::GunpowderBarrel)
                } else {
                    m0.voxel(a, c)
                } by {
                    assert(pre.in_bounds(a, c));
                }
            }
            x = x + 1;
        }
        y = y + 1;
    }
}

/// Ground that desert scrub never grows on: planks, stone, road,
/// sidewalk, bridge and beach sand.
pub open spec fn scrub_blocked(f: Option<Floor>) -> bool {
    f == Some(Floor::WoodPlanks) || f == Some(Floor::StoneFloor) || f == Some(Floor::DirtRoad) || f == Some(
        Floor::Sidewalk,
    ) || f == Some(Floor::Bridge) || f == Some(Floor::BeachSand)
}

/// Seed of the desert decorations.
pub open spec fn scrub_seed(seed: u64) -> u64 {
    wadd64(seed, 99999)
}

/// The decoration picked by the noise `pick`: cactus below 0.3, dead tree
/// below 0.5, rock below 0.65, bush below 0.8, else a hay bale.
pub open spec fn scrub_prop(pick: u32) -> Props {
    if fraction_below(pick, 3, 10) {
        Props::Cactus
    } else if fraction_below(pick, 1, 2) {
        Props::DeadTree
    } else if fraction_below(pick, 13, 20) {
        Props::Rock
    } else if fraction_below(pick, 4, 5) {
        Props::Bush
    } else {
        Props::HayBale
    }
}

/// The decoration that `(a, c)` gets when it is decorated.
pub open spec fn scrub_at(seed: u64, a: int, c: int) -> Props {
    scrub_prop(noise2d_spec(c as i32, a as i32, wadd64(scrub_seed(seed), 44444)))
}

/// A decoration goes on `(a, c)`: inside the one-tile margin of the
/// `width` by `height` area, on the map, empty, unclaimed, not on planks,
/// stone, road, sidewalk, bridge or beach sand, at least six tiles from
/// `spawn`, where the noise is at most 0.04 and the density mask `dense`
/// (indexed by row, then column) is set; and `set_prop` accepts it.
pub open spec fn scrub_tile(
    m: &GameMap,
    dense: Seq<Vec<bool>>,
    width: int,
    height: int,
    seed: u64,
    spawn: GridVec,
    a: int,
    c: int,
) -> bool {
    &&& 1 <= a < width - 1
    &&& 1 <= c < height - 1
    &&& m.in_bounds(a, c)
    &&& m.voxel(a, c).props is None
    &&& !scrub_blocked(m.voxel(a, c).floor)
    &&& !m.occupied(a, c)
    &&& dist_sq_to(a, c, spawn) >= 36
    &&& !fraction_above(noise2d_spec(a as i32, c as i32, scrub_seed(seed)), 1, 25)
    &&& dense[c]@[a]
    &&& prop_allowed(m, a, c)
}

/// Whether desert scrub never grows on `f`.
fn is_scrub_blocked(f: Option<Floor>) -> (r: bool)
    ensures
        r == scrub_blocked(f),
{
    match f {
        Some(Floor::WoodPlanks) | Some(Floor::StoneFloor) | Some(Floor::DirtRoad) | Some(Floor::Sidewalk)
        | Some(Floor::Bridge) | Some(Floor::BeachSand) => true,
        _ => false,
    }
}

/// The decoration picked by the noise at `(y, x)`.
fn pick_scrub(x: i32, y: i32, seed: u64) -> (r: Props)
    ensures
        r == scrub_at(seed, x as int, y as int),
{
    let ps = seed.wrapping_add(99999).wrapping_add(44444);
    if noise_below(y, x, ps, 3, 10) {
        Props::Cactus
    } else if noise_below(y, x, ps, 1, 2) {
        Props::DeadTree
    } else if noise_below(y, x, ps, 13, 20) {
        Props::Rock
    } else if noise_below(y, x, ps, 4, 5) {
        Props::Bush
    } else {
        Props::HayBale
    }
}

/// Decorates the open desert of the `width` by `height` area with cacti,
/// dead trees, rocks, bushes and hay bales: on empty, unclaimed tiles
/// off planks, stone, road, sidewalk, bridge and beach sand, at least six
/// tiles from `spawn`, where the noise is at most 0.04 and the density
/// mask `dense` (row by row; set where the clustered density reaches
/// 0.45) is set.
pub fn place_desert_decorations(
    map: &mut GameMap,
    width: i32,
    height: i32,
    seed: NoiseSeed,
    spawn: GridVec,
    dense: &Vec<Vec<bool>>,
)
    requires
        old(map).wf(),
        dense@.len() == old(map).height,
        forall|r: int| 0 <= r < old(map).height ==> (#[trigger] dense@[r])@.len() == old(map).width,
    ensures
        same_frame(final(map), old(map)),
        forall|a: int, c: int|
            final(map).in_bounds(a, c) ==> #[trigger] final(map).voxel(a, c) == if scrub_tile(
                old(map),
                dense@,
                width as int,
                height as int,
                seed,
                spawn,
                a,
                c,
            ) {
                with_prop(old(map).voxel(a, c), scrub_at(seed, a, c))
            } else {
                old(map).voxel(a, c)
            },
{
    let ghost m0 = *map;
    let ds = seed.wrapping_add(99999);
    let xe: i64 = width as i64 - 1;
    let ye: i64 = height as i64 - 1;
    let mut y: i64 = 1;
    while y < ye
        invariant
            same_frame(&*map, &m0),
            m0.wf(),
            dense@.len() == m0.height,
            forall|r: int| 0 <= r < m0.height ==> (#[trigger] dense@[r])@.len() == m0.width,
            xe == width - 1,
            ye == height - 1,
            1 <= y,
            y == 1 || y <= ye,
            ds == scrub_seed(seed),
            forall|a: int, c: int|
                map.in_bounds(a, c) ==> #[trigger] map.voxel(a, c) == if c < y && scrub_tile(
                    &m0,
                    dense@,
                    width as int,
                    height as int,
                    seed,
                    spawn,
                    a,
                    c,
                ) {
                    with_prop(m0.voxel(a, c), scrub_at(seed, a, c))
                } else {
                    m0.voxel(a, c)
                },
        decreases ye + 1 - y,
    {
        let mut x: i64 = 1;
        while x < xe
            invariant
                same_frame(&*map, &m0),
                m0.wf(),
                dense@.len() == m0.height,
                forall|r: int| 0 <= r < m0.height ==> (#[trigger] dense@[r])@.len() == m0.width,
                xe == width - 1,
                ye == height - 1,
                1 <= y < ye,
                1 <= x,
                x == 1 || x <= xe,
                ds == scrub_seed(seed),
                forall|a: int, c: int|
                    map.in_bounds(a, c) ==> #[trigger] map.voxel(a, c) == if (c < y || (c == y && a < x))
                        && scrub_tile(&m0, dense@, width as int, height as int, seed, spawn, a, c) {
                        with_prop(m0.voxel(a, c), scrub_at(seed, a, c))
                    } else {
                        m0.voxel(a, c)
                    },
            decreases xe + 1 - x,
        {
            let ghost pre = *map;
            if x < map.width as i64 && y < map.height as i64 {
                let v = map.voxels[y as usize][x as usize];
                let claimed = map.occupancy[x as usize][y as usize];
                proof {
                    assert(v == map.voxel(x as int, y as int));
                    assert(v == m0.voxel(x as int, y as int));
                }
                if v.props.is_none() && !is_scrub_blocked(v.floor) && !claimed && distance_sq_to(x, y, spawn) >= 36 {
                    let xi = x as i32;
                    let yi = y as i32;
                    let row = &dense[y as usize];
                    if !noise_above(xi, yi, ds, 1, 25) && row[x as usize] {
                        let p = pick_scrub(xi, yi, seed);
                        set_prop(map, xi, yi, p);
                    }
                }
            }
            proof {
                assert forall|a: int, c: int| map.in_bounds(a, c) implies #[trigger] map.voxel(a, c) == if (c < y
                    || (c == y && a < x + 1)) && scrub_tile(&m0, dense@, width as int, height as int, seed, spawn, a, c) {
                    with_prop(m0.voxel(a, c), scrub_at(seed, a, c))
                } else {
                    m0.voxel(a, c)
                } by {
                    assert(pre.in_bounds(a, c));
                }
            }
            x = x + 1;
        }
        y = y + 1;
    }
}

/// The street prop numbered `k` (the noise scaled to `[0, 6]`): hitching
/// post, bench, barrel, water trough, sign, and a crate for the rest.
pub open spec fn street_prop(k: int) -> Props {
    if k == 0 {
        Props::HitchingPost
    } else if k == 1 {
        Props::Bench
    } else if k == 2 {
        Props::Barrel
    } else if k == 3 {
        Props::WaterTrough
    } else if k == 4 {
        Props::Sign
    } else {
        Props::Crate
    }
}

/// Seed of the street props.
pub open spec fn street_seed(seed: u64) -> u64 {
    wadd64(seed, 77777)
}

/// The prop put on the road-edge tile numbered `idx`, standing at `t`.
pub open spec fn street_prop_at(t: (i32, i32), idx: int, seed: u64) -> (i32, i32, Props) {
    (t.0, t.1, street_prop(fraction_scaled(noise2d_spec(t.0, t.1, wadd64(street_seed(seed), idx as u64)), 6)))
}

/// The `set_prop` calls of the street props: one for every fourth
/// road-edge tile, starting with the first.
pub open spec fn street_prop_ops(tiles: Seq<(i32, i32)>, seed: u64) -> Seq<(i32, i32, Props)> {
    Seq::new(((tiles.len() + 3) / 4) as nat, |j: int| street_prop_at(tiles[4 * j], 4 * j, seed))
}

/// The street prop numbered by the noise at `(x, y)`.
fn pick_street_prop(x: i32, y: i32, s: u64) -> (r: Props)
    ensures
        r == street_prop(fraction_scaled(noise2d_spec(x, y, s), 6)),
{
    let k = noise_scaled(x, y, s, 6);
    if k == 0 {
        Props::HitchingPost
    } else if k == 1 {
        Props::Bench
    } else if k == 2 {
        Props::Barrel
    } else if k == 3 {
        Props::WaterTrough
    } else if k == 4 {
        Props::Sign
    } else {
        Props::Crate
    }
}

/// Puts street furniture on every fourth road-edge tile, in the order
/// given, so that it follows the curve of the road: a hitching post,
/// bench, barrel, water trough, sign or crate picked by the noise.
pub fn place_street_props_curved(map: &mut GameMap, road_edge_tiles: &[(i32, i32)], seed: NoiseSeed)
    requires
        old(map).wf(),
    ensures
        same_frame(final(map), old(map)),
        forall|a: int, c: int|
            final(map).in_bounds(a, c) ==> #[trigger] final(map).voxel(a, c) == put_all(
                |x: int, y: int| old(map).voxel(x, y),
                old(map),
                street_prop_ops(road_edge_tiles@, seed),
            )(a, c),
{
    let ghost m0 = *map;
    let fs = seed.wrapping_add(77777);
    let n = road_edge_tiles.len();
    let mut ops: Vec<(i32, i32, Props)> = Vec::new();
    let count: usize = n / 4 + if n % 4 == 0 { 0 } else { 1 };
    let mut j: usize = 0;
    while j < count
        invariant
            n == road_edge_tiles@.len(),
            count == (n + 3) / 4,
            j <= count,
            fs == street_seed(seed),
            ops@.len() == j,
            forall|i: int| 0 <= i < ops@.len() ==> #[trigger] ops@[i] == street_prop_at(road_edge_tiles@[4 * i], 4 * i, seed),
        decreases count - j,
    {
        let idx = 4 * j;
        let (x, y) = road_edge_tiles[idx];
        let p = pick_street_prop(x, y, fs.wrapping_add(idx as u64));
        ops.push((x, y, p));
        j = j + 1;
    }
    proof {
        assert(ops@ =~= street_prop_ops(road_edge_tiles@, seed));
    }
    place_props(map, &ops, Ghost(|x: int, y: int| m0.voxel(x, y)), Ghost(m0));
}

/// The `set_prop` call for `p` at `(x, y)`.
pub open spec fn op(x: int, y: int, p: Props) -> (i32, i32, Props) {
    (x as i32, y as i32, p)
}

/// An open lot's coordinates leave room for the scatter around its
/// centre.
pub open spec fn lot_fits(l: (i32, i32, i32, i32)) -> bool {
    &&& i32::MIN < l.0 + half_toward_zero(l.2 as int) < i32::MAX
    &&& i32::MIN < l.1 + half_toward_zero(l.3 as int) < i32::MAX
}

/// The centre of the open lot `(x, y, w, h)`.
pub open spec fn lot_center(l: (i32, i32, i32, i32)) -> (int, int) {
    (l.0 + half_toward_zero(l.2 as int), l.1 + half_toward_zero(l.3 as int))
}

/// Seed of the open-lot scatter.
pub open spec fn lot_seed(seed: u64) -> u64 {
    wadd64(seed, 151515)
}

/// The `set_prop` calls for the open lot `l`, numbered `i`: by the noise
/// at its centre, a dead tree (below 0.25), a broken wagon of two crates
/// (below 0.5), a campfire ring of four rocks (below 0.75), or a patch of
/// three bushes.
pub open spec fn lot_ops(l: (i32, i32, i32, i32), seed: u64, i: int) -> Seq<(i32, i32, Props)> {
    let (cx, cy) = lot_center(l);
    let pick = noise2d_spec(cx as i32, cy as i32, wadd64(lot_seed(seed), i as u64));
    if fraction_below(pick, 1, 4) {
        seq![op(cx, cy, Props::DeadTree)]
    } else if fraction_below(pick, 1, 2) {
        seq![op(cx, cy, Props::Crate), op(cx + 1, cy, Props::Crate)]
    } else if fraction_below(pick, 3, 4) {
        seq![op(cx - 1, cy, Props::Rock), op(cx + 1, cy, Props::Rock), op(cx, cy - 1, Props::Rock), op(cx, cy + 1, Props::Rock)]
    } else {
        seq![op(cx, cy, Props::Bush), op(cx + 1, cy, Props::Bush), op(cx - 1, cy + 1, Props::Bush)]
    }
}

/// The `set_prop` calls for the first `k` open lots, in order.
pub open spec fn lots_ops(lots: Seq<(i32, i32, i32, i32)>, seed: u64, k: int) -> Seq<(i32, i32, Props)>
    decreases k,
{
    if k <= 0 {
        seq![]
    } else {
        lots_ops(lots, seed, k - 1) + lot_ops(lots[k - 1], seed, k - 1)
    }
}

/// Half of `v`, rounded toward zero.
fn half_of(v: i32) -> (r: i32)
    ensures
        r == half_toward_zero(v as int),
{
    if v >= 0 {
        v / 2
    } else if v == i32::MIN {
        -0x4000_0000
    } else {
        -((-v) / 2)
    }
}

/// Fills each open lot (a `(x, y, w, h)` rectangle that holds no building)
/// with scatter at its centre, picked by the noise there: a dead tree, a
/// broken wagon, a campfire ring or a patch of scrub.
pub fn place_open_lot_scatter(map: &mut GameMap, open_lots: &[(i32, i32, i32, i32)], seed: NoiseSeed)
    requires
        old(map).wf(),
        forall|i: int| 0 <= i < open_lots@.len() ==> lot_fits(#[trigger] open_lots@[i]),
    ensures
        same_frame(final(map), old(map)),
        forall|a: int, c: int|
            final(map).in_bounds(a, c) ==> #[trigger] final(map).voxel(a, c) == put_all(
                |x: int, y: int| old(map).voxel(x, y),
                old(map),
                lots_ops(open_lots@, seed, open_lots@.len() as int),
            )(a, c),
{
    let ghost m0 = *map;
    let ss = seed.wrapping_add(151515);
    let mut ops: Vec<(i32, i32, Props)> = Vec::new();
    let mut i: usize = 0;
    while i < open_lots.len()
        invariant
            i <= open_lots@.len(),
            ss == lot_seed(seed),
            forall|k: int| 0 <= k < open_lots@.len() ==> lot_fits(#[trigger] open_lots@[k]),
            ops@ == lots_ops(open_lots@, seed, i as int),
        decreases open_lots@.len() - i,
    {
        let (lx, ly, lw, lh) = open_lots[i];
        proof {
            assert(lot_fits(open_lots@[i as int]));
        }
        let cx = lx + half_of(lw);
        let cy = ly + half_of(lh);
        let s = ss.wrapping_add(i as u64);
        let ghost before = ops@;
        if noise_below(cx, cy, s, 1, 4) {
            ops.push((cx, cy, Props::DeadTree));
        } else if noise_below(cx, cy, s, 1, 2) {
            ops.push((cx, cy, Props::Crate));
            ops.push((cx + 1, cy, Props::Crate));
        } else if noise_below(cx, cy, s, 3, 4) {
            ops.push((cx - 1, cy, Props::Rock));
            ops.push((cx + 1, cy, Props::Rock));
            ops.push((cx, cy - 1, Props::Rock));
            ops.push((cx, cy + 1, Props::Rock));
        } else {
            ops.push((cx, cy, Props::Bush));
            ops.push((cx + 1, cy, Props::Bush));
            ops.push((cx - 1, cy + 1, Props::Bush));
        }
        proof {
            assert(ops@ =~= before + lot_ops(open_lots@[i as int], seed, i as int));
        }
        i = i + 1;
    }
    place_props(map, &ops, Ghost(|x: int, y: int| m0.voxel(x, y)), Ghost(m0));
}

/// `a / d` rounded toward zero, for `d > 0`.
pub open spec fn quot(a: int, d: int) -> int {
    if a >= 0 {
        a / d
    } else {
        -((-a) / d)
    }
}

/// `a / d` rounded toward zero.
fn quot_of(a: i32, d: i32) -> (r: i32)
    requires
        0 < d,
        a > i32::MIN,
    ensures
        r == quot(a as int, d as int),
{
    if a >= 0 {
        a / d
    } else {
        -((-a) / d)
    }
}

/// Seed of a building's exterior props.
pub open spec fn exterior_seed(b: Building, seed: u64) -> u64 {
    wadd64(seed, (b.x * 31 + b.y * 37) as u64)
}

/// `n` calls putting `p` on consecutive tiles of row `y`, from `x`.
pub open spec fn row_run(x: int, y: int, n: int, p: Props) -> Seq<(i32, i32, Props)> {
    Seq::new(if n > 0 { n as nat } else { 0 }, |j: int| op(x + j, y, p))
}

/// Calls putting `p` on every third tile of column `x` from `y`, for the
/// `n` tiles from there.
pub open spec fn column_run3(x: int, y: int, n: int, p: Props) -> Seq<(i32, i32, Props)> {
    Seq::new(if n > 0 { ((n + 2) / 3) as nat } else { 0 }, |j: int| op(x, y + 3 * j, p))
}

/// The `set_prop` calls of a building's exterior props, by its kind:
/// a house gets a fence along its south edge and a well or two bushes at
/// the north; a saloon two hitching posts out front and barrels down its
/// west side; a stable a corral fence at the rear with hay and a trough;
/// a general store a crate and a barrel by the door; a sheriff's office a
/// hitching post and a wanted poster. Other kinds get none.
pub open spec fn exterior_ops(b: Building, seed: u64) -> Seq<(i32, i32, Props)> {
    let (x, y, w, h) = (b.x as int, b.y as int, b.w as int, b.h as int);
    if b.kind == 0 {
        row_run(x - 1, y + h, w + 2, Props::Fence) + if fraction_below(
            noise2d_spec(b.x, b.y, exterior_seed(b, seed)),
            1,
            2,
        ) {
            seq![op(x + quot(w, 2), y - 1, Props::Well)]
        } else {
            seq![op(x + 1, y - 1, Props::Bush), op(x + 2, y - 1, Props::Bush)]
        }
    } else if b.kind == 1 {
        seq![op(x + quot(w, 3), y + h, Props::HitchingPost), op(x + quot(w * 2, 3), y + h, Props::HitchingPost)]
            + column_run3(x - 1, y, h, Props::Barrel)
    } else if b.kind == 2 {
        row_run(x, y - 1, if w < 6 { w } else { 6 }, Props::Fence) + seq![
            op(x + 2, y - 2, Props::HayBale),
            op(x + 4, y - 2, Props::WaterTrough),
        ]
    } else if b.kind == 3 {
        seq![op(x + quot(w, 2) - 1, y + h, Props::Crate), op(x + quot(w, 2) + 1, y + h, Props::Barrel)]
    } else if b.kind == 4 {
        seq![op(x + quot(w, 2), y + h, Props::HitchingPost), op(x - 1, y + quot(h, 2), Props::Sign)]
    } else {
        seq![]
    }
}

/// Appends `n` calls putting `p` on consecutive tiles of row `y` from `x`.
fn push_row_run(ops: &mut Vec<(i32, i32, Props)>, x: i32, y: i32, n: i32, p: Props)
    requires
        -0x200_0000 <= x <= 0x200_0000,
        n <= 0x200_0000,
    ensures
        final(ops)@ == old(ops)@ + row_run(x as int, y as int, n as int, p),
{
    let ghost start = old(ops)@;
    let mut j: i32 = 0;
    while j < n
        invariant
            -0x200_0000 <= x <= 0x200_0000,
            n <= 0x200_0000,
            0 <= j,
            j <= n || j == 0,
            ops@ == start + row_run(x as int, y as int, j as int, p),
        decreases n - j,
    {
        ops.push((x + j, y, p));
        proof {
            assert(row_run(x as int, y as int, j + 1, p) =~= row_run(x as int, y as int, j as int, p).push(
                op(x + j, y as int, p),
            ));
        }
        j = j + 1;
    }
    proof {
        assert(row_run(x as int, y as int, j as int, p) =~= row_run(x as int, y as int, n as int, p));
    }
}

/// Appends calls putting `p` on every third tile of column `x`, for the
/// `n` tiles from `y`.
fn push_column_run3(ops: &mut Vec<(i32, i32, Props)>, x: i32, y: i32, n: i32, p: Props)
    requires
        -0x200_0000 <= y <= 0x200_0000,
        n <= 0x200_0000,
    ensures
        final(ops)@ == old(ops)@ + column_run3(x as int, y as int, n as int, p),
{
    let ghost start = old(ops)@;
    let mut j: i32 = 0;
    while j < n
        invariant
            -0x200_0000 <= y <= 0x200_0000,
            n <= 0x200_0000,
            0 <= j,
            j % 3 == 0,
            j <= n + 2 || j == 0,
            ops@ == start + column_run3(x as int, y as int, j as int, p),
        decreases n + 3 - j,
    {
        ops.push((x, y + j, p));
        proof {
            assert(column_run3(x as int, y as int, j + 3, p) =~= column_run3(x as int, y as int, j as int, p).push(
                op(x as int, y + j, p),
            ));
        }
        j = j + 3;
    }
    proof {
        assert(column_run3(x as int, y as int, j as int, p) =~= column_run3(x as int, y as int, n as int, p));
    }
}

/// Places the exterior props that suit a building's kind around it (see
/// `exterior_ops`).
pub fn place_exterior_props(map: &mut GameMap, b: &Building, seed: NoiseSeed)
    requires
        old(map).wf(),
        building_small(*b),
        0 <= b.x,
        0 <= b.y,
    ensures
        same_frame(final(map), old(map)),
        forall|a: int, c: int|
            final(map).in_bounds(a, c) ==> #[trigger] final(map).voxel(a, c) == put_all(
                |x: int, y: int| old(map).voxel(x, y),
                old(map),
                exterior_ops(*b, seed),
            )(a, c),
{
    let ghost m0 = *map;
    let es = seed.wrapping_add(b.x as u64 * 31 + b.y as u64 * 37);
    let (x, y, w, h) = (b.x, b.y, b.w, b.h);
    let mut ops: Vec<(i32, i32, Props)> = Vec::new();
    if b.kind == 0 {
        push_row_run(&mut ops, x - 1, y + h, w + 2, Props::Fence);
        if noise_below(x, y, es, 1, 2) {
            ops.push((x + quot_of(w, 2), y - 1, Props::Well));
        } else {
            ops.push((x + 1, y - 1, Props::Bush));
            ops.push((x + 2, y - 1, Props::Bush));
        }
    } else if b.kind == 1 {
        ops.push((x + quot_of(w, 3), y + h, Props::HitchingPost));
        ops.push((x + quot_of(w * 2, 3), y + h, Props::HitchingPost));
        push_column_run3(&mut ops, x - 1, y, h, Props::Barrel);
    } else if b.kind == 2 {
        push_row_run(&mut ops, x, y - 1, if w < 6 { w } else { 6 }, Props::Fence);
        ops.push((x + 2, y - 2, Props::HayBale));
        ops.push((x + 4, y - 2, Props::WaterTrough));
    } else if b.kind == 3 {
        ops.push((x + quot_of(w, 2) - 1, y + h, Props::Crate));
        ops.push((x + quot_of(w, 2) + 1, y + h, Props::Barrel));
    } else if b.kind == 4 {
        ops.push((x + quot_of(w, 2), y + h, Props::HitchingPost));
        ops.push((x - 1, y + quot_of(h, 2), Props::Sign));
    }
    proof {
        assert(ops@ =~= exterior_ops(*b, seed));
    }
    place_props(map, &ops, Ghost(|x: int, y: int| m0.voxel(x, y)), Ghost(m0));
}

} // verus!
