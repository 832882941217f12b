//! Landmark buildings of the town centre: the town hall, the grand
//! saloon, the plaza and the mission. Each picks a site from the seed,
//! is skipped when the site overlaps a building or stands on road, water
//! or beach, and otherwise lays its shell, furnishes it and claims its
//! rectangle.
use vstd::prelude::*;

use crate::gamemap::{building_in_range, put_voxel, same_frame, set_prop, GameMap, Voxel};
use crate::components::Faction;
use crate::graphics::{Floor, Props};
use crate::grid_vec::GridVec;
use crate::noise::{fraction_scaled, noise2d_spec, noise_scaled, wadd64, NoiseSeed};
use crate::outskirts::put;
use crate::streets::{tiles, MAX_STREET_SIDE};
use crate::town::{buffered, building_small, clamp_int, overlap, overlaps_any_building, Building};

verus! {

broadcast use vstd::string::group_string_axioms;

/// The tiles after `set_prop` for each `(x, y, prop)` of `ops` in turn.
pub open spec fn put_all(g: spec_fn(int, int) -> Voxel, m: &GameMap, ops: Seq<(i32, i32, Props)>) -> spec_fn(int, int) -> Voxel
    decreases ops.len(),
{
    if ops.len() == 0 {
        g
    } else {
        let last = ops.last();
        put(put_all(g, m, ops.drop_last()), m, last.0 as int, last.1 as int, last.2)
    }
}

/// Runs `set_prop` for each `(x, y, prop)` of `ops` in turn on a map whose
/// tiles are `g` and whose frame is `m0`'s.
pub(crate) fn place_props(
    map: &mut GameMap,
    ops: &Vec<(i32, i32, Props)>,
    Ghost(g): Ghost<spec_fn(int, int) -> Voxel>,
    Ghost(m0): Ghost<GameMap>,
)
    requires
        same_frame(old(map), &m0),
        forall|a: int, c: int| old(map).in_bounds(a, c) ==> #[trigger] old(map).voxel(a, c) == g(a, c),
    ensures
        same_frame(final(map), &m0),
        forall|a: int, c: int| final(map).in_bounds(a, c) ==> #[trigger] final(map).voxel(a, c) == put_all(g, &m0, ops@)(a, c),
{
    let mut k: usize = 0;
    while k < ops.len()
        invariant
            same_frame(&*map, &m0),
            k <= ops@.len(),
            forall|a: int, c: int| map.in_bounds(a, c) ==> #[trigger] map.voxel(a, c) == put_all(g, &m0, ops@.take(k as int))(a, c),
        decreases ops@.len() - k,
    {
        let (x, y, p) = ops[k];
        let ghost pre = *map;
        set_prop(map, x, y, p);
        proof {
            assert(ops@.take(k + 1).drop_last() =~= ops@.take(k as int));
            assert(ops@.take(k + 1).last() == (x, y, p));
            assert forall|a: int, c: int| map.in_bounds(a, c) implies #[trigger] map.voxel(a, c) == put_all(
                g,
                &m0,
                ops@.take(k + 1),
            )(a, c) by {
                assert(pre.in_bounds(a, c));
            }
        }
        k = k + 1;
    }
    proof {
        assert(ops@.take(ops@.len() as int) =~= ops@);
    }
}

/// A landmark's site is free: it overlaps no building grown by two tiles
/// and has no road, water or beach tile.
pub open spec fn site_free(m: &GameMap, bs: Seq<Building>, x: int, y: int, w: int, h: int) -> bool {
    &&& !exists|i: int| 0 <= i < bs.len() && {
        let e = buffered(#[trigger] bs[i]);
        overlap(x, y, w, h, e.0, e.1, e.2, e.3)
    }
    &&& !exists|a: int, c: int| x <= a < x + w && y <= c < y + h && m.in_bounds(a, c) && #[trigger] m.excluded_at(a, c)
}

/// The claimed-tile grid after marking `[x, x + w) x [y, y + h)`.
pub open spec fn claimed(m: &GameMap, x: int, y: int, w: int, h: int, a: int, c: int) -> bool {
    m.occupied(a, c) || (x <= a < x + w && y <= c < y + h)
}

/// The result of a landmark pass on `old`: tiles `t`, the rectangle
/// claimed, the rest of the map unchanged.
pub open spec fn landmark_laid(old: &GameMap, new: &GameMap, t: spec_fn(int, int) -> Voxel, x: int, y: int, w: int, h: int) -> bool {
    &&& new.wf()
    &&& new.width == old.width
    &&& new.height == old.height
    &&& new.faction_anchors@ == old.faction_anchors@
    &&& forall|a: int, c: int| new.in_bounds(a, c) ==> #[trigger] new.voxel(a, c) == t(a, c)
    &&& forall|a: int, c: int| new.in_bounds(a, c) ==> #[trigger] new.occupied(a, c) == claimed(old, x, y, w, h, a, c)
}

/// Town hall width and height.
pub open spec fn hall_size() -> (int, int) {
    (18, 12)
}

/// The town hall's corner: centred near a third of the way down the map,
/// shifted sideways by the noise (-10 to 10), kept two tiles inside.
pub open spec fn hall_site(width: int, height: int, seed: u64) -> (int, int) {
    let cx = width / 2 + fraction_scaled(noise2d_spec(0, 0, wadd64(seed, 111222)), 20) - 10;
    let cy = height / 3;
    (clamp_int(cx - 9, 2, width - 20), clamp_int(cy - 6, 2, height - 14))
}

/// The town hall's furniture, in placing order: a row of twelve tables,
/// chairs on both sides of every other table, two signs, and barrels and
/// crates in the corners.
pub open spec fn hall_props(tx: int, ty: int) -> Seq<(i32, i32, Props)> {
    Seq::new(12, |k: int| ((tx + 2 + k) as i32, (ty + 4) as i32, Props::Table)) + Seq::new(
        12,
        |k: int| ((tx + 2 + 2 * (k / 2)) as i32, (if k % 2 == 0 { ty + 3 } else { ty + 5 }) as i32, Props::Chair),
    ) + seq![
        ((tx + 2) as i32, (ty + 2) as i32, Props::Sign),
        ((tx + 3) as i32, (ty + 2) as i32, Props::Sign),
        ((tx + 1) as i32, (ty + 1) as i32, Props::Barrel),
        ((tx + 16) as i32, (ty + 1) as i32, Props::Barrel),
        ((tx + 1) as i32, (ty + 10) as i32, Props::Crate),
        ((tx + 16) as i32, (ty + 10) as i32, Props::Crate),
    ]
}

/// The town hall's furniture list.
fn hall_prop_list(tx: i32, ty: i32) -> (r: Vec<(i32, i32, Props)>)
    requires
        -0x100_0000 <= tx <= 0x100_0000,
        -0x100_0000 <= ty <= 0x100_0000,
    ensures
        r@ == hall_props(tx as int, ty as int),
{
    let mut ops: Vec<(i32, i32, Props)> = Vec::new();
    let mut dx: i32 = 2;
    while dx < 14
        invariant
            -0x100_0000 <= tx <= 0x100_0000,
            -0x100_0000 <= ty <= 0x100_0000,
            2 <= dx <= 14,
            ops@ =~= Seq::new((dx - 2) as nat, |k: int| ((tx + 2 + k) as i32, (ty + 4) as i32, Props::Table)),
        decreases 14 - dx,
    {
        ops.push((tx + dx, ty + 4, Props::Table));
        dx = dx + 1;
    }
    let ghost tables = ops@;
    let mut dx: i32 = 2;
    while dx < 14
        invariant
            -0x100_0000 <= tx <= 0x100_0000,
            -0x100_0000 <= ty <= 0x100_0000,
            2 <= dx <= 14,
            dx % 2 == 0,
            tables.len() == 12,
            ops@ =~= tables + Seq::new(
                (dx - 2) as nat,
                |k: int| ((tx + 2 + 2 * (k / 2)) as i32, (if k % 2 == 0 { ty + 3 } else { ty + 5 }) as i32, Props::Chair),
            ),
        decreases 14 - dx,
    {
        ops.push((tx + dx, ty + 3, Props::Chair));
        ops.push((tx + dx, ty + 5, Props::Chair));
        dx = dx + 2;
    }
    ops.push((tx + 2, ty + 2, Props::Sign));
    ops.push((tx + 3, ty + 2, Props::Sign));
    ops.push((tx + 1, ty + 1, Props::Barrel));
    ops.push((tx + 16, ty + 1, Props::Barrel));
    ops.push((tx + 1, ty + 10, Props::Crate));
    ops.push((tx + 16, ty + 10, Props::Crate));
    ops
}

/// The tiles after laying a shell over the on-map tiles of
/// `[x0, x0 + w) x [y0, y0 + h)`: the given floor everywhere; the given
/// wall on the border except at the doors; no prop elsewhere.
pub open spec fn shell(
    g: spec_fn(int, int) -> Voxel,
    m: &GameMap,
    x0: int,
    y0: int,
    w: int,
    h: int,
    floor: Floor,
    wall: Option<Props>,
    doors: Seq<(i32, i32)>,
) -> spec_fn(int, int) -> Voxel {
    |a: int, c: int|
        if x0 <= a < x0 + w && y0 <= c < y0 + h && m.in_bounds(a, c) {
            let border = a == x0 || a == x0 + w - 1 || c == y0 || c == y0 + h - 1;
            let door = exists|k: int| 0 <= k < doors.len() && doors[k].0 == a && doors[k].1 == c;
            Voxel { floor: Some(floor), props: if border && !door { wall } else { None } }
        } else {
            g(a, c)
        }
}

/// Whether `(x, y)` is one of the doors.
fn is_door_at(doors: &Vec<(i32, i32)>, x: i32, y: i32) -> (r: bool)
    ensures
        r == exists|k: int| 0 <= k < doors@.len() && doors@[k].0 == x && doors@[k].1 == y,
{
    let mut k: usize = 0;
    while k < doors.len()
        invariant
            k <= doors@.len(),
            forall|q: int| 0 <= q < k ==> !(doors@[q].0 == x && doors@[q].1 == y),
        decreases doors@.len() - k,
    {
        if doors[k].0 == x && doors[k].1 == y {
            return true;
        }
        k = k + 1;
    }
    false
}

/// Lays a shell (see `shell`).
pub(crate) fn lay_shell(
    map: &mut GameMap,
    x0: i32,
    y0: i32,
    w: i32,
    h: i32,
    floor: Floor,
    wall: Option<Props>,
    doors: &Vec<(i32, i32)>,
)
    requires
        old(map).wf(),
        -0x200_0000 <= x0 <= 0x200_0000,
        -0x200_0000 <= y0 <= 0x200_0000,
        0 <= w <= 1000,
        0 <= h <= 1000,
    ensures
        same_frame(final(map), old(map)),
        forall|a: int, c: int|
            final(map).in_bounds(a, c) ==> #[trigger] final(map).voxel(a, c) == shell(
                tiles(old(map)),
                old(map),
                x0 as int,
                y0 as int,
                w as int,
                h as int,
                floor,
                wall,
                doors@,
            )(a, c),
{
    let ghost pre = *map;
    let ghost t = shell(tiles(&pre), &pre, x0 as int, y0 as int, w as int, h as int, floor, wall, doors@);
    let mut y = y0;
    while y < y0 + h
        invariant
            pre.wf(),
            same_frame(&*map, &pre),
            -0x200_0000 <= x0 <= 0x200_0000,
            -0x200_0000 <= y0 <= 0x200_0000,
            0 <= w <= 1000,
            0 <= h <= 1000,
            y0 <= y <= y0 + h,
            t == shell(tiles(&pre), &pre, x0 as int, y0 as int, w as int, h as int, floor, wall, doors@),
            forall|a: int, c: int| map.in_bounds(a, c) ==> #[trigger] map.voxel(a, c) == if c < y { t(a, c) } else { pre.voxel(a, c) },
        decreases y0 + h - y,
    {
        let mut x = x0;
        while x < x0 + w
            invariant
                pre.wf(),
                same_frame(&*map, &pre),
                -0x200_0000 <= x0 <= 0x200_0000,
                -0x200_0000 <= y0 <= 0x200_0000,
                0 <= w <= 1000,
                0 <= h <= 1000,
                y0 <= y < y0 + h,
                x0 <= x <= x0 + w,
                t == shell(tiles(&pre), &pre, x0 as int, y0 as int, w as int, h as int, floor, wall, doors@),
                forall|a: int, c: int|
                    map.in_bounds(a, c) ==> #[trigger] map.voxel(a, c) == if c < y || (c == y && a < x) {
                        t(a, c)
                    } else {
                        pre.voxel(a, c)
                    },
            decreases x0 + w - x,
        {
            if x >= 0 && x < map.width && y >= 0 && y < map.height {
                let border = x == x0 || x == x0 + w - 1 || y == y0 || y == y0 + h - 1;
                let door = is_door_at(doors, x, y);
                let props = if border && !door {
                    wall
                } else {
                    None
                };
                put_voxel(map, x, y, Voxel { floor: Some(floor), props });
            }
            x = x + 1;
        }
        y = y + 1;
    }
}

/// The map is unchanged.
pub open spec fn unchanged(old: &GameMap, new: &GameMap) -> bool {
    same_frame(new, old) && new.voxels@ == old.voxels@
}

/// Whether the site is free (see `site_free`).
pub(crate) fn site_is_free(map: &GameMap, buildings: &[Building], x: i32, y: i32, w: i32, h: i32) -> (r: bool)
    requires
        map.wf(),
        -0x100_0000 <= x <= 0x100_0000,
        -0x100_0000 <= y <= 0x100_0000,
        0 <= w <= 1000,
        0 <= h <= 1000,
        forall|i: int| 0 <= i < buildings@.len() ==> building_small(#[trigger] buildings@[i]),
    ensures
        r == site_free(map, buildings@, x as int, y as int, w as int, h as int),
{
    !overlaps_any_building(x, y, w, h, buildings) && !map.has_excluded_tile(x, y, w, h)
}

/// Places the town hall (see `hall_site`, `hall_props`): skipped on maps
/// under 24 by 18 or when its site is not free; otherwise an 18 by 12
/// plank hall with front and back doors, furnished, its rectangle claimed.
pub fn place_town_hall(map: &mut GameMap, width: i32, height: i32, seed: NoiseSeed, buildings: &[Building])
    requires
        old(map).wf(),
        width <= MAX_STREET_SIDE,
        height <= MAX_STREET_SIDE,
        forall|i: int| 0 <= i < buildings@.len() ==> building_small(#[trigger] buildings@[i]),
    ensures
        ({
            let (tx, ty) = hall_site(width as int, height as int, seed);
            if width < 24 || height < 18 || !site_free(old(map), buildings@, tx, ty, 18, 12) {
                unchanged(old(map), final(map))
            } else {
                landmark_laid(
                    old(map),
                    final(map),
                    put_all(
                        shell(
                            tiles(old(map)),
                            old(map),
                            tx,
                            ty,
                            18,
                            12,
                            Floor::WoodPlanks,
                            Some(Props::Wall),
                            seq![((tx + 9) as i32, (ty + 11) as i32), ((tx + 9) as i32, ty as i32)],
                        ),
                        old(map),
                        hall_props(tx, ty),
                    ),
                    tx,
                    ty,
                    18,
                    12,
                )
            }
        }),
{
    if width < 24 || height < 18 {
        return;
    }
    let ghost m0 = *map;
    let cx = width / 2 + noise_scaled(0, 0, seed.wrapping_add(111222), 20) - 10;
    let cy = height / 3;
    let tx = if cx - 9 < 2 { 2 } else if cx - 9 > width - 20 { width - 20 } else { cx - 9 };
    let ty = if cy - 6 < 2 { 2 } else if cy - 6 > height - 14 { height - 14 } else { cy - 6 };
    proof {
        assert((tx as int, ty as int) == hall_site(width as int, height as int, seed));
    }
    if !site_is_free(map, buildings, tx, ty, 18, 12) {
        return;
    }
    let doors = vec![(tx + 9, ty + 11), (tx + 9, ty)];
    lay_shell(map, tx, ty, 18, 12, Floor::WoodPlanks, Some(Props::Wall), &doors);
    let ghost shelled = shell(tiles(&m0), &m0, tx as int, ty as int, 18, 12, Floor::WoodPlanks, Some(Props::Wall), doors@);
    let ops = hall_prop_list(tx, ty);
    place_props(map, &ops, Ghost(shelled), Ghost(m0));
    let ghost before_claim = *map;
    map.mark_occupied(tx, ty, 18, 12);
    proof {
        assert(doors@ =~= seq![((tx + 9) as i32, (ty + 11) as i32), ((tx + 9) as i32, ty as i32)]);
        let t = put_all(shelled, &m0, hall_props(tx as int, ty as int));
        assert(ops@ == hall_props(tx as int, ty as int));
        assert forall|a: int, c: int| map.in_bounds(a, c) implies #[trigger] map.voxel(a, c) == t(a, c) by {
            assert(before_claim.in_bounds(a, c));
            assert(map.voxel(a, c) == before_claim.voxel(a, c));
        }
        assert forall|a: int, c: int| map.in_bounds(a, c) implies #[trigger] map.occupied(a, c) == claimed(&m0, tx as int, ty as int, 18, 12, a, c) by {
            assert(before_claim.in_bounds(a, c));
            assert(before_claim.occupied(a, c) == m0.occupied(a, c));
        }
        assert(landmark_laid(&m0, &*map, t, tx as int, ty as int, 18, 12));
    }
}

/// The grand saloon's corner: centred two thirds of the way down the map,
/// shifted sideways by the noise (-20 to 20), kept two tiles inside.
pub open spec fn saloon_site(width: int, height: int, seed: u64) -> (int, int) {
    let cx = width / 2 - 20 + fraction_scaled(noise2d_spec(1, 1, wadd64(seed, 333444)), 40);
    let cy = height * 2 / 3;
    (clamp_int(cx - 10, 2, width - 22), clamp_int(cy - 7, 2, height - 16))
}

/// The grand saloon's doors: two in the middle of the bottom edge, one in
/// the middle of the left edge.
pub open spec fn saloon_doors(sx: int, sy: int) -> Seq<(i32, i32)> {
    seq![((sx + 10) as i32, (sy + 13) as i32), ((sx + 9) as i32, (sy + 13) as i32), (sx as i32, (sy + 7) as i32)]
}

/// The `k`-th prop of the saloon's three by three grid of tables, each a
/// table between two chairs, row by row.
pub open spec fn saloon_cluster(sx: int, sy: int, k: int) -> (i32, i32, Props) {
    let c = k / 3;
    let tx = sx + 3 + (c % 3) * 5;
    let ty = sy + 4 + (c / 3) * 3;
    if k % 3 == 0 {
        (tx as i32, ty as i32, Props::Table)
    } else if k % 3 == 1 {
        ((tx - 1) as i32, ty as i32, Props::Chair)
    } else {
        ((tx + 1) as i32, ty as i32, Props::Chair)
    }
}

/// The grand saloon's furniture, in placing order: a piano in the corner,
/// a bar of fourteen barrels along the back wall, the tables, a barrel and
/// a crate in the right corners.
pub open spec fn saloon_props(sx: int, sy: int) -> Seq<(i32, i32, Props)> {
    seq![((sx + 1) as i32, (sy + 1) as i32, Props::Piano)] + Seq::new(
        14,
        |k: int| ((sx + 3 + k) as i32, (sy + 1) as i32, Props::Barrel),
    ) + Seq::new(27, |k: int| saloon_cluster(sx, sy, k)) + seq![
        ((sx + 18) as i32, (sy + 1) as i32, Props::Barrel),
        ((sx + 18) as i32, (sy + 12) as i32, Props::Crate),
    ]
}

/// The grand saloon's furniture list.
fn saloon_prop_list(sx: i32, sy: i32) -> (r: Vec<(i32, i32, Props)>)
    requires
        -0x100_0000 <= sx <= 0x100_0000,
        -0x100_0000 <= sy <= 0x100_0000,
    ensures
        r@ == saloon_props(sx as int, sy as int),
{
    let mut ops: Vec<(i32, i32, Props)> = Vec::new();
    ops.push((sx + 1, sy + 1, Props::Piano));
    let ghost head = ops@;
    let mut dx: i32 = 3;
    while dx < 17
        invariant
            -0x100_0000 <= sx <= 0x100_0000,
            -0x100_0000 <= sy <= 0x100_0000,
            3 <= dx <= 17,
            head == seq![((sx + 1) as i32, (sy + 1) as i32, Props::Piano)],
            ops@ =~= head + Seq::new((dx - 3) as nat, |k: int| ((sx + 3 + k) as i32, (sy + 1) as i32, Props::Barrel)),
        decreases 17 - dx,
    {
        ops.push((sx + dx, sy + 1, Props::Barrel));
        dx = dx + 1;
    }
    let ghost bar = ops@;
    let mut row: i32 = 0;
    while row < 3
        invariant
            -0x100_0000 <= sx <= 0x100_0000,
            -0x100_0000 <= sy <= 0x100_0000,
            0 <= row <= 3,
            bar.len() == 15,
            ops@ =~= bar + Seq::new((9 * row) as nat, |k: int| saloon_cluster(sx as int, sy as int, k)),
        decreases 3 - row,
    {
        let mut col: i32 = 0;
        while col < 3
            invariant
                -0x100_0000 <= sx <= 0x100_0000,
                -0x100_0000 <= sy <= 0x100_0000,
                0 <= row < 3,
                0 <= col <= 3,
                bar.len() == 15,
                ops@ =~= bar + Seq::new((9 * row + 3 * col) as nat, |k: int| saloon_cluster(sx as int, sy as int, k)),
            decreases 3 - col,
        {
            let tx = sx + 3 + col * 5;
            let ty = sy + 4 + row * 3;
            let ghost n = 9 * row + 3 * col;
            proof {
                assert((n / 3) % 3 == col && (n / 3) / 3 == row && n % 3 == 0) by (nonlinear_arith)
                    requires
                        n == 9 * row + 3 * col,
                        0 <= col < 3,
                        0 <= row < 3,
                ;
                assert(((n + 1) / 3) % 3 == col && ((n + 1) / 3) / 3 == row && (n + 1) % 3 == 1) by (nonlinear_arith)
                    requires
                        n == 9 * row + 3 * col,
                        0 <= col < 3,
                        0 <= row < 3,
                ;
                assert(((n + 2) / 3) % 3 == col && ((n + 2) / 3) / 3 == row && (n + 2) % 3 == 2) by (nonlinear_arith)
                    requires
                        n == 9 * row + 3 * col,
                        0 <= col < 3,
                        0 <= row < 3,
                ;
            }
            ops.push((tx, ty, Props::Table));
            ops.push((tx - 1, ty, Props::Chair));
            ops.push((tx + 1, ty, Props::Chair));
            col = col + 1;
        }
        row = row + 1;
    }
    ops.push((sx + 18, sy + 1, Props::Barrel));
    ops.push((sx + 18, sy + 12, Props::Crate));
    ops
}

/// Places the grand saloon (see `saloon_site`, `saloon_props`): skipped
/// on maps under 26 by 20 or when its site is not free; otherwise a 20 by
/// 14 plank saloon with two front doors and a side door, furnished, its
/// rectangle claimed.
pub fn place_grand_saloon(map: &mut GameMap, width: i32, height: i32, seed: NoiseSeed, buildings: &[Building])
    requires
        old(map).wf(),
        width <= MAX_STREET_SIDE,
        height <= MAX_STREET_SIDE,
        forall|i: int| 0 <= i < buildings@.len() ==> building_small(#[trigger] buildings@[i]),
    ensures
        ({
            let (sx, sy) = saloon_site(width as int, height as int, seed);
            if width < 26 || height < 20 || !site_free(old(map), buildings@, sx, sy, 20, 14) {
                unchanged(old(map), final(map))
            } else {
                landmark_laid(
                    old(map),
                    final(map),
                    put_all(
                        shell(tiles(old(map)), old(map), sx, sy, 20, 14, Floor::WoodPlanks, Some(Props::Wall), saloon_doors(sx, sy)),
                        old(map),
                        saloon_props(sx, sy),
                    ),
                    sx,
                    sy,
                    20,
                    14,
                )
            }
        }),
{
    if width < 26 || height < 20 {
        return;
    }
    let ghost m0 = *map;
    let cx = width / 2 - 20 + noise_scaled(1, 1, seed.wrapping_add(333444), 40);
    let cy = height * 2 / 3;
    let sx = if cx - 10 < 2 { 2 } else if cx - 10 > width - 22 { width - 22 } else { cx - 10 };
    let sy = if cy - 7 < 2 { 2 } else if cy - 7 > height - 16 { height - 16 } else { cy - 7 };
    proof {
        assert((sx as int, sy as int) == saloon_site(width as int, height as int, seed));
    }
    if !site_is_free(map, buildings, sx, sy, 20, 14) {
        return;
    }
    let doors = vec![(sx + 10, sy + 13), (sx + 9, sy + 13), (sx, sy + 7)];
    proof {
        assert(doors@ =~= saloon_doors(sx as int, sy as int));
    }
    lay_shell(map, sx, sy, 20, 14, Floor::WoodPlanks, Some(Props::Wall), &doors);
    let ghost shelled = shell(tiles(&m0), &m0, sx as int, sy as int, 20, 14, Floor::WoodPlanks, Some(Props::Wall), doors@);
    let ops = saloon_prop_list(sx, sy);
    place_props(map, &ops, Ghost(shelled), Ghost(m0));
    let ghost before_claim = *map;
    map.mark_occupied(sx, sy, 20, 14);
    proof {
        let t = put_all(shelled, &m0, saloon_props(sx as int, sy as int));
        assert forall|a: int, c: int| map.in_bounds(a, c) implies #[trigger] map.voxel(a, c) == t(a, c) by {
            assert(before_claim.in_bounds(a, c));
            assert(map.voxel(a, c) == before_claim.voxel(a, c));
        }
        assert forall|a: int, c: int| map.in_bounds(a, c) implies #[trigger] map.occupied(a, c) == claimed(&m0, sx as int, sy as int, 20, 14, a, c) by {
            assert(before_claim.in_bounds(a, c));
            assert(before_claim.occupied(a, c) == m0.occupied(a, c));
        }
        assert(landmark_laid(&m0, &*map, t, sx as int, sy as int, 20, 14));
    }
}

/// The first of `cands` whose `w` by `h` site is free.
pub open spec fn first_free_site(m: &GameMap, bs: Seq<Building>, cands: Seq<(int, int)>, w: int, h: int) -> Option<(int, int)>
    decreases cands.len(),
{
    if cands.len() == 0 {
        None
    } else if site_free(m, bs, cands[0].0, cands[0].1, w, h) {
        Some(cands[0])
    } else {
        first_free_site(m, bs, cands.drop_first(), w, h)
    }
}

/// Offsets from the map's centre at which the plaza is tried.
pub open spec fn plaza_offsets() -> Seq<(int, int)> {
    seq![(15, 10), (-10, 0), (0, -10), (-25, 25), (25, -25), (-15, -20), (20, 20), (-30, 10)]
}

/// Offsets from the map's centre at which the mission is tried.
pub open spec fn mission_offsets() -> Seq<(int, int)> {
    seq![(0, 0), (-15, -15), (15, 15), (-30, 20), (30, -20), (-20, 30), (20, -30), (-35, -10)]
}

/// The `i`-th offset of a list of eight, as exec values.
fn offset_at(plaza: bool, i: i32) -> (r: (i32, i32))
    requires
        0 <= i < 8,
    ensures
        (r.0 as int, r.1 as int) == if plaza { plaza_offsets()[i as int] } else { mission_offsets()[i as int] },
{
    if plaza {
        match i {
            0 => (15, 10),
            1 => (-10, 0),
            2 => (0, -10),
            3 => (-25, 25),
            4 => (25, -25),
            5 => (-15, -20),
            6 => (20, 20),
            _ => (-30, 10),
        }
    } else {
        match i {
            0 => (0, 0),
            1 => (-15, -15),
            2 => (15, 15),
            3 => (-30, 20),
            4 => (30, -20),
            5 => (-20, 30),
            6 => (20, -30),
            _ => (-35, -10),
        }
    }
}

/// The `i`-th plaza site: its offset from the centre, jittered by the
/// noise (0 to 10 each way), the 16 by 12 plaza kept two tiles inside.
pub open spec fn plaza_candidate(width: int, height: int, seed: u64, i: int) -> (int, int) {
    let s = wadd64(seed, 777888);
    let cx = width / 2 + plaza_offsets()[i].0 + fraction_scaled(noise2d_spec((i * 2 + 5) as i32, 5, s), 10);
    let cy = height / 2 + plaza_offsets()[i].1 + fraction_scaled(noise2d_spec((i * 2 + 6) as i32, 6, s), 10);
    (clamp_int(cx - 8, 2, width - 18), clamp_int(cy - 6, 2, height - 14))
}

/// The `i`-th mission site: its offset from the centre, jittered by the
/// noise (0 to 10 each way), the 24 by 18 mission kept two tiles inside.
pub open spec fn mission_candidate(width: int, height: int, seed: u64, i: int) -> (int, int) {
    let s = wadd64(seed, 555666);
    let cx = width / 2 + mission_offsets()[i].0 + fraction_scaled(noise2d_spec((i * 2) as i32, 2, s), 10);
    let cy = height / 2 + mission_offsets()[i].1 + fraction_scaled(noise2d_spec((i * 2 + 1) as i32, 3, s), 10);
    (clamp_int(cx - 12, 2, width - 26), clamp_int(cy - 9, 2, height - 20))
}

/// The eight plaza sites, in the order tried.
pub open spec fn plaza_candidates(width: int, height: int, seed: u64) -> Seq<(int, int)> {
    Seq::new(8, |i: int| plaza_candidate(width, height, seed, i))
}

/// The eight mission sites, in the order tried.
pub open spec fn mission_candidates(width: int, height: int, seed: u64) -> Seq<(int, int)> {
    Seq::new(8, |i: int| mission_candidate(width, height, seed, i))
}

/// The tiles with a rock set on `(x, y)` (if on the map), whatever stood
/// there.
pub open spec fn set_rock(g: spec_fn(int, int) -> Voxel, m: &GameMap, x: int, y: int) -> spec_fn(int, int) -> Voxel {
    |a: int, c: int|
        if a == x && c == y && m.in_bounds(a, c) {
            Voxel { floor: g(a, c).floor, props: Some(Props::Rock) }
        } else {
            g(a, c)
        }
}

/// The plaza's benches around its central monument at `(cx, cy)`.
pub open spec fn plaza_benches(cx: int, cy: int) -> Seq<(i32, i32, Props)> {
    seq![
        ((cx - 2) as i32, cy as i32, Props::Bench),
        ((cx + 2) as i32, cy as i32, Props::Bench),
        (cx as i32, (cy - 2) as i32, Props::Bench),
        (cx as i32, (cy + 2) as i32, Props::Bench),
    ]
}

/// The tiles of the plaza with its corner at `(px, py)`: open plaza
/// ground, a rock monument in the middle, four benches around it.
pub open spec fn plaza_tiles(m: &GameMap, px: int, py: int) -> spec_fn(int, int) -> Voxel {
    put_all(
        set_rock(shell(tiles(m), m, px, py, 16, 12, Floor::Plaza, None, Seq::empty()), m, px + 8, py + 6),
        m,
        plaza_benches(px + 8, py + 6),
    )
}

/// Places the town plaza, an open killing ground: skipped on maps under
/// 36 by 32; otherwise at the first free one of eight sites around the
/// centre (see `plaza_candidate`), if any; its rectangle claimed.
pub fn place_town_plaza(map: &mut GameMap, width: i32, height: i32, seed: NoiseSeed, buildings: &[Building])
    requires
        old(map).wf(),
        width <= MAX_STREET_SIDE,
        height <= MAX_STREET_SIDE,
        forall|i: int| 0 <= i < buildings@.len() ==> building_small(#[trigger] buildings@[i]),
    ensures
        ({
            let site = first_free_site(old(map), buildings@, plaza_candidates(width as int, height as int, seed), 16, 12);
            if width < 36 || height < 32 || site is None {
                unchanged(old(map), final(map))
            } else {
                let (px, py) = site.unwrap();
                landmark_laid(old(map), final(map), plaza_tiles(old(map), px, py), px, py, 16, 12)
            }
        }),
{
    if width < 36 || height < 32 {
        return;
    }
    let ghost m0 = *map;
    let ghost cands = plaza_candidates(width as int, height as int, seed);
    let s = seed.wrapping_add(777888);
    proof {
        assert(cands.skip(0) =~= cands);
    }
    let mut i: i32 = 0;
    while i < 8
        invariant
            *map == m0,
            m0 == *old(map),
            m0.wf(),
            36 <= width <= MAX_STREET_SIDE,
            32 <= height <= MAX_STREET_SIDE,
            0 <= i <= 8,
            s == wadd64(seed, 777888),
            cands == plaza_candidates(width as int, height as int, seed),
            forall|i: int| 0 <= i < buildings@.len() ==> building_small(#[trigger] buildings@[i]),
            first_free_site(&m0, buildings@, cands, 16, 12) == first_free_site(&m0, buildings@, cands.skip(i as int), 16, 12),
        decreases 8 - i,
    {
        let (ox, oy) = offset_at(true, i);
        let cx = width / 2 + ox + noise_scaled(i * 2 + 5, 5, s, 10);
        let cy = height / 2 + oy + noise_scaled(i * 2 + 6, 6, s, 10);
        let px = if cx - 8 < 2 { 2 } else if cx - 8 > width - 18 { width - 18 } else { cx - 8 };
        let py = if cy - 6 < 2 { 2 } else if cy - 6 > height - 14 { height - 14 } else { cy - 6 };
        proof {
            assert(((i * 2 + 5) as int) as i32 == i * 2 + 5 && ((i * 2 + 6) as int) as i32 == i * 2 + 6);
            assert((px as int, py as int) == plaza_candidate(width as int, height as int, seed, i as int));
            assert(cands.skip(i as int)[0] == cands[i as int]);
            assert(cands.skip(i as int).drop_first() =~= cands.skip(i + 1));
        }
        if site_is_free(map, buildings, px, py, 16, 12) {
            proof {
                assert(first_free_site(&m0, buildings@, cands, 16, 12) == Some((px as int, py as int)));
            }
            lay_shell(map, px, py, 16, 12, Floor::Plaza, None, &Vec::new());
            let ghost shelled = shell(tiles(&m0), &m0, px as int, py as int, 16, 12, Floor::Plaza, None, Seq::empty());
            let ccx = px + 8;
            let ccy = py + 6;
            let center = GridVec::new(ccx, ccy);
            match map.get_voxel_at(&center) {
                Some(v) => {
                    put_voxel(map, ccx, ccy, Voxel { floor: v.floor, props: Some(Props::Rock) });
                },
                None => {},
            }
            let ghost rocked = set_rock(shelled, &m0, ccx as int, ccy as int);
            proof {
                assert forall|a: int, c: int| map.in_bounds(a, c) implies #[trigger] map.voxel(a, c) == rocked(a, c) by {}
            }
            let ops = vec![(ccx - 2, ccy, Props::Bench), (ccx + 2, ccy, Props::Bench), (ccx, ccy - 2, Props::Bench), (ccx, ccy + 2, Props::Bench)];
            proof {
                assert(ops@ =~= plaza_benches(ccx as int, ccy as int));
            }
            place_props(map, &ops, Ghost(rocked), Ghost(m0));
            let ghost before_claim = *map;
            map.mark_occupied(px, py, 16, 12);
            proof {
                let t = plaza_tiles(&m0, px as int, py as int);
                assert forall|a: int, c: int| map.in_bounds(a, c) implies #[trigger] map.voxel(a, c) == t(a, c) by {
                    assert(before_claim.in_bounds(a, c));
                    assert(map.voxel(a, c) == before_claim.voxel(a, c));
                }
                assert forall|a: int, c: int| map.in_bounds(a, c) implies #[trigger] map.occupied(a, c) == claimed(&m0, px as int, py as int, 16, 12, a, c) by {
                    assert(before_claim.in_bounds(a, c));
                    assert(before_claim.occupied(a, c) == m0.occupied(a, c));
                }
                assert(landmark_laid(&m0, &*map, t, px as int, py as int, 16, 12));
            }
            return;
        }
        i = i + 1;
    }
    proof {
        assert(cands.skip(8) =~= Seq::<(int, int)>::empty());
    }
}

/// The mission's doors: two in the middle of the bottom edge, one in the
/// middle of the right edge, one in the middle of the top edge.
pub open spec fn mission_doors(mx: int, my: int, mw: int, mh: int) -> Seq<(i32, i32)> {
    seq![
        ((mx + mw / 2) as i32, (my + mh - 1) as i32),
        ((mx + mw / 2 - 1) as i32, (my + mh - 1) as i32),
        ((mx + mw - 1) as i32, (my + mh / 2) as i32),
        ((mx + mw / 2) as i32, my as i32),
    ]
}

/// Column of the mission's inner dividing wall.
pub open spec fn divider_x(mx: int, mw: int) -> int {
    mx + mw * 2 / 3
}

/// The tiles with the dividing wall raised (doors at a third and at half
/// of the height).
pub open spec fn mission_divider(g: spec_fn(int, int) -> Voxel, m: &GameMap, mx: int, my: int, mw: int, mh: int) -> spec_fn(
    int,
    int,
) -> Voxel {
    |a: int, c: int|
        if a == divider_x(mx, mw) && my + 1 <= c < my + mh - 1 && c != my + mh / 2 && c != my + mh / 3 && m.in_bounds(a, c) {
            Voxel { floor: g(a, c).floor, props: Some(Props::StoneWall) }
        } else {
            g(a, c)
        }
}

/// The tiles with the bell tower's three by three roof in the mission's
/// top-left corner (props kept).
pub open spec fn mission_tower(g: spec_fn(int, int) -> Voxel, m: &GameMap, mx: int, my: int) -> spec_fn(int, int) -> Voxel {
    |a: int, c: int|
        if mx + 1 <= a < mx + 4 && my + 1 <= c < my + 4 && m.in_bounds(a, c) {
            Voxel { floor: Some(Floor::Rooftop), props: g(a, c).props }
        } else {
            g(a, c)
        }
}

/// The mission's furniture, in placing order: an altar table between two
/// signs, two columns of pews, a barrel and a crate in the side rooms.
pub open spec fn mission_props(mx: int, my: int, mw: int, mh: int) -> Seq<(i32, i32, Props)> {
    let pews = if mh >= 7 {
        2 * (mh - 7)
    } else {
        0
    };
    seq![
        ((mx + 5) as i32, (my + 1) as i32, Props::Table),
        ((mx + 4) as i32, (my + 1) as i32, Props::Sign),
        ((mx + 6) as i32, (my + 1) as i32, Props::Sign),
    ] + Seq::new(
        pews as nat,
        |k: int| ((if k % 2 == 0 { mx + 3 } else { mx + 7 }) as i32, (my + 4 + k / 2) as i32, Props::Bench),
    ) + seq![
        ((divider_x(mx, mw) + 2) as i32, (my + mh / 2 + 2) as i32, Props::Barrel),
        ((divider_x(mx, mw) + 3) as i32, (my + mh / 2 + 2) as i32, Props::Crate),
    ]
}

/// The tiles of the mission at `(mx, my)`, `mw` by `mh`.
pub open spec fn mission_tiles(m: &GameMap, mx: int, my: int, mw: int, mh: int) -> spec_fn(int, int) -> Voxel {
    let walls = shell(tiles(m), m, mx, my, mw, mh, Floor::StoneFloor, Some(Props::StoneWall), mission_doors(mx, my, mw, mh));
    let court_x = divider_x(mx, mw) + 1;
    let court = shell(
        mission_divider(walls, m, mx, my, mw, mh),
        m,
        court_x,
        my + 2,
        (mx + mw - 1) - court_x - 1,
        mh / 2 - 2,
        Floor::Plaza,
        None,
        Seq::empty(),
    );
    put_all(mission_tower(court, m, mx, my), m, mission_props(mx, my, mw, mh))
}

/// The mission's furniture list.
fn mission_prop_list(mx: i32, my: i32, mw: i32, mh: i32) -> (r: Vec<(i32, i32, Props)>)
    requires
        -0x100_0000 <= mx <= 0x100_0000,
        -0x100_0000 <= my <= 0x100_0000,
        6 <= mw <= 1000,
        6 <= mh <= 1000,
    ensures
        r@ == mission_props(mx as int, my as int, mw as int, mh as int),
{
    let mut ops: Vec<(i32, i32, Props)> = Vec::new();
    ops.push((mx + 5, my + 1, Props::Table));
    ops.push((mx + 4, my + 1, Props::Sign));
    ops.push((mx + 6, my + 1, Props::Sign));
    let ghost head = ops@;
    let mut row: i32 = 3;
    while row < mh - 4
        invariant
            -0x100_0000 <= mx <= 0x100_0000,
            -0x100_0000 <= my <= 0x100_0000,
            6 <= mw <= 1000,
            6 <= mh <= 1000,
            3 <= row,
            row <= mh - 4 || (mh < 7 && row == 3),
            head.len() == 3,
            ops@ =~= head + Seq::new(
                (2 * (row - 3)) as nat,
                |k: int| ((if k % 2 == 0 { mx + 3 } else { mx + 7 }) as i32, (my + 4 + k / 2) as i32, Props::Bench),
            ),
        decreases mh - 4 - row,
    {
        ops.push((mx + 3, my + 1 + row, Props::Bench));
        ops.push((mx + 7, my + 1 + row, Props::Bench));
        proof {
            let n = 2 * (row - 3);
            assert(n / 2 == row - 3 && (n + 1) / 2 == row - 3 && n % 2 == 0 && (n + 1) % 2 == 1);
        }
        row = row + 1;
    }
    let dx = mx + mw * 2 / 3;
    ops.push((dx + 2, my + mh / 2 + 2, Props::Barrel));
    ops.push((dx + 3, my + mh / 2 + 2, Props::Crate));
    ops
}

/// Lays the mission at `(mx, my)`, `mw` by `mh`: thick stone walls with
/// four doors over a stone floor, an inner dividing wall, an open
/// courtyard in the side rooms, a bell tower's roof, furniture; registers
/// it as the civilians' anchor and claims its rectangle.
pub fn place_mission_at(map: &mut GameMap, mx: i32, my: i32, mw: i32, mh: i32)
    requires
        old(map).wf(),
        -0x100_0000 <= mx <= 0x100_0000,
        -0x100_0000 <= my <= 0x100_0000,
        6 <= mw <= 1000,
        6 <= mh <= 1000,
    ensures
        final(map).wf(),
        final(map).width == old(map).width,
        final(map).height == old(map).height,
        forall|a: int, c: int|
            final(map).in_bounds(a, c) ==> #[trigger] final(map).voxel(a, c) == mission_tiles(
                old(map),
                mx as int,
                my as int,
                mw as int,
                mh as int,
            )(a, c),
        forall|a: int, c: int|
            final(map).in_bounds(a, c) ==> #[trigger] final(map).occupied(a, c) == claimed(
                old(map),
                mx as int,
                my as int,
                mw as int,
                mh as int,
                a,
                c,
            ),
        final(map).faction_anchors@.len() == old(map).faction_anchors@.len() + 1,
        final(map).faction_anchors@.drop_last() == old(map).faction_anchors@,
        final(map).faction_anchors@.last().0 == (GridVec { x: (mx + mw / 2) as i32, y: (my + mh / 2) as i32 }),
        final(map).faction_anchors@.last().1 == Faction::Civilians,
        final(map).faction_anchors@.last().2@ == "Mission"@,
{
    let ghost m0 = *map;
    let doors = vec![(mx + mw / 2, my + mh - 1), (mx + mw / 2 - 1, my + mh - 1), (mx + mw - 1, my + mh / 2), (mx + mw / 2, my)];
    proof {
        assert(doors@ =~= mission_doors(mx as int, my as int, mw as int, mh as int));
    }
    lay_shell(map, mx, my, mw, mh, Floor::StoneFloor, Some(Props::StoneWall), &doors);
    let ghost walls = shell(tiles(&m0), &m0, mx as int, my as int, mw as int, mh as int, Floor::StoneFloor, Some(Props::StoneWall), doors@);
    let dx = mx + mw * 2 / 3;
    let mut y = my + 1;
    while y < my + mh - 1
        invariant
            same_frame(&*map, &m0),
            -0x100_0000 <= mx <= 0x100_0000,
            -0x100_0000 <= my <= 0x100_0000,
            6 <= mw <= 1000,
            6 <= mh <= 1000,
            dx == divider_x(mx as int, mw as int),
            my + 1 <= y <= my + mh - 1,
            forall|a: int, c: int|
                map.in_bounds(a, c) ==> #[trigger] map.voxel(a, c) == if c < y {
                    mission_divider(walls, &m0, mx as int, my as int, mw as int, mh as int)(a, c)
                } else {
                    walls(a, c)
                },
        decreases my + mh - 1 - y,
    {
        if y != my + mh / 2 && y != my + mh / 3 {
            match map.get_voxel_at(&GridVec::new(dx, y)) {
                Some(v) => {
                    put_voxel(map, dx, y, Voxel { floor: v.floor, props: Some(Props::StoneWall) });
                },
                None => {},
            }
        }
        y = y + 1;
    }
    let ghost divided = mission_divider(walls, &m0, mx as int, my as int, mw as int, mh as int);
    let court_x = dx + 1;
    let court_w = (mx + mw - 1) - court_x - 1;
    let court_h = mh / 2 - 2;
    let ghost after_divider = *map;
    if court_w > 0 && court_h > 0 {
        lay_shell(map, court_x, my + 2, court_w, court_h, Floor::Plaza, None, &Vec::new());
    }
    let ghost court = shell(divided, &m0, court_x as int, my + 2, court_w as int, court_h as int, Floor::Plaza, None, Seq::empty());
    proof {
        assert forall|a: int, c: int| map.in_bounds(a, c) implies #[trigger] map.voxel(a, c) == court(a, c) by {
            assert(after_divider.in_bounds(a, c));
        }
    }
    let mut ty: i32 = 0;
    while ty < 3
        invariant
            same_frame(&*map, &m0),
            -0x100_0000 <= mx <= 0x100_0000,
            -0x100_0000 <= my <= 0x100_0000,
            0 <= ty <= 3,
            forall|a: int, c: int|
                map.in_bounds(a, c) ==> #[trigger] map.voxel(a, c) == if c < my + 1 + ty {
                    mission_tower(court, &m0, mx as int, my as int)(a, c)
                } else {
                    court(a, c)
                },
        decreases 3 - ty,
    {
        let mut tx: i32 = 0;
        while tx < 3
            invariant
                same_frame(&*map, &m0),
                -0x100_0000 <= mx <= 0x100_0000,
                -0x100_0000 <= my <= 0x100_0000,
                0 <= ty < 3,
                0 <= tx <= 3,
                forall|a: int, c: int|
                    map.in_bounds(a, c) ==> #[trigger] map.voxel(a, c) == if c < my + 1 + ty || (c == my + 1 + ty && a < mx + 1 + tx) {
                        mission_tower(court, &m0, mx as int, my as int)(a, c)
                    } else {
                        court(a, c)
                    },
            decreases 3 - tx,
        {
            let px = mx + 1 + tx;
            let py = my + 1 + ty;
            match map.get_voxel_at(&GridVec::new(px, py)) {
                Some(v) => {
                    put_voxel(map, px, py, Voxel { floor: Some(Floor::Rooftop), props: v.props });
                },
                None => {},
            }
            tx = tx + 1;
        }
        ty = ty + 1;
    }
    let ghost towered = mission_tower(court, &m0, mx as int, my as int);
    let ops = mission_prop_list(mx, my, mw, mh);
    place_props(map, &ops, Ghost(towered), Ghost(m0));
    let ghost before_claim = *map;
    map.faction_anchors.push((GridVec::new(mx + mw / 2, my + mh / 2), Faction::Civilians, "Mission".to_string()));
    let ghost before_mark = *map;
    map.mark_occupied(mx, my, mw, mh);
    proof {
        assert forall|a: int, c: int| map.in_bounds(a, c) implies #[trigger] map.voxel(a, c) == mission_tiles(
            &m0,
            mx as int,
            my as int,
            mw as int,
            mh as int,
        )(a, c) by {
            assert(before_claim.in_bounds(a, c));
            assert(map.voxel(a, c) == before_claim.voxel(a, c));
        }
        assert forall|a: int, c: int| map.in_bounds(a, c) implies #[trigger] map.occupied(a, c) == claimed(&m0, mx as int, my as int, mw as int, mh as int, a, c) by {
            assert(before_mark.in_bounds(a, c));
            assert(before_mark.occupied(a, c) == m0.occupied(a, c));
        }
        assert(map.faction_anchors@.drop_last() =~= m0.faction_anchors@);
    }
}

/// Places the mission, a thick-walled stone landmark: skipped on maps
/// under 34 by 28; otherwise at the first free one of eight sites around
/// the centre (see `mission_candidate`), if any.
pub fn place_mission(map: &mut GameMap, width: i32, height: i32, seed: NoiseSeed, buildings: &[Building])
    requires
        old(map).wf(),
        width <= MAX_STREET_SIDE,
        height <= MAX_STREET_SIDE,
        forall|i: int| 0 <= i < buildings@.len() ==> building_small(#[trigger] buildings@[i]),
    ensures
        ({
            let site = first_free_site(old(map), buildings@, mission_candidates(width as int, height as int, seed), 24, 18);
            if width < 34 || height < 28 || site is None {
                unchanged(old(map), final(map)) && final(map).faction_anchors@ == old(map).faction_anchors@
            } else {
                let (mx, my) = site.unwrap();
                &&& final(map).wf()
                &&& final(map).width == old(map).width
                &&& final(map).height == old(map).height
                &&& forall|a: int, c: int|
                    final(map).in_bounds(a, c) ==> #[trigger] final(map).voxel(a, c) == mission_tiles(old(map), mx, my, 24, 18)(a, c)
                &&& forall|a: int, c: int|
                    final(map).in_bounds(a, c) ==> #[trigger] final(map).occupied(a, c) == claimed(old(map), mx, my, 24, 18, a, c)
                &&& final(map).faction_anchors@.drop_last() == old(map).faction_anchors@
                &&& final(map).faction_anchors@.len() == old(map).faction_anchors@.len() + 1
                &&& final(map).faction_anchors@.last().0 == (GridVec { x: (mx + 12) as i32, y: (my + 9) as i32 })
                &&& final(map).faction_anchors@.last().1 == Faction::Civilians
                &&& final(map).faction_anchors@.last().2@ == "Mission"@
            }
        }),
{
    if width < 34 || height < 28 {
        return;
    }
    let ghost m0 = *map;
    let ghost cands = mission_candidates(width as int, height as int, seed);
    let s = seed.wrapping_add(555666);
    proof {
        assert(cands.skip(0) =~= cands);
    }
    let mut i: i32 = 0;
    while i < 8
        invariant
            *map == m0,
            m0 == *old(map),
            m0.wf(),
            34 <= width <= MAX_STREET_SIDE,
            28 <= height <= MAX_STREET_SIDE,
            0 <= i <= 8,
            s == wadd64(seed, 555666),
            cands == mission_candidates(width as int, height as int, seed),
            forall|i: int| 0 <= i < buildings@.len() ==> building_small(#[trigger] buildings@[i]),
            first_free_site(&m0, buildings@, cands, 24, 18) == first_free_site(&m0, buildings@, cands.skip(i as int), 24, 18),
        decreases 8 - i,
    {
        let (ox, oy) = offset_at(false, i);
        let cx = width / 2 + ox + noise_scaled(i * 2, 2, s, 10);
        let cy = height / 2 + oy + noise_scaled(i * 2 + 1, 3, s, 10);
        let mx = if cx - 12 < 2 { 2 } else if cx - 12 > width - 26 { width - 26 } else { cx - 12 };
        let my = if cy - 9 < 2 { 2 } else if cy - 9 > height - 20 { height - 20 } else { cy - 9 };
        proof {
            assert(((i * 2) as int) as i32 == i * 2 && ((i * 2 + 1) as int) as i32 == i * 2 + 1);
            assert((mx as int, my as int) == mission_candidate(width as int, height as int, seed, i as int));
            assert(cands.skip(i as int)[0] == cands[i as int]);
            assert(cands.skip(i as int).drop_first() =~= cands.skip(i + 1));
        }
        if site_is_free(map, buildings, mx, my, 24, 18) {
            proof {
                assert(first_free_site(&m0, buildings@, cands, 24, 18) == Some((mx as int, my as int)));
            }
            place_mission_at(map, mx, my, 24, 18);
            return;
        }
        i = i + 1;
    }
    proof {
        assert(cands.skip(8) =~= Seq::<(int, int)>::empty());
    }
}

/// The `k`-th stone church site (`k = 4 * qy + qx`): a four by four grid
/// of points a fifth of the map apart, jittered by the noise (0 to 20
/// across, 0 to 10 down), the 16 by 20 church kept two tiles inside.
pub open spec fn church_candidate(width: int, height: int, seed: u64, k: int) -> (int, int) {
    let s = wadd64(seed, 424242);
    let qx = k % 4;
    let qy = k / 4;
    let cx = width / 5 + qx * (width / 5) + fraction_scaled(noise2d_spec((qx + 11) as i32, (qy + 11) as i32, s), 20);
    let cy = height / 5 + qy * (height / 5) + fraction_scaled(noise2d_spec((qx + 12) as i32, (qy + 12) as i32, s), 10);
    (clamp_int(cx - 8, 2, width - 18), clamp_int(cy - 10, 2, height - 22))
}

/// The sixteen church sites, in the order tried.
pub open spec fn church_candidates(width: int, height: int, seed: u64) -> Seq<(int, int)> {
    Seq::new(16, |k: int| church_candidate(width, height, seed, k))
}

/// The church's doors: two in the middle of the bottom edge, one in the
/// middle of the top edge.
pub open spec fn church_doors(bx: int, by: int) -> Seq<(i32, i32)> {
    seq![((bx + 8) as i32, (by + 19) as i32), ((bx + 7) as i32, (by + 19) as i32), ((bx + 8) as i32, by as i32)]
}

/// The church's furniture, in placing order: an altar table between two
/// signs, eleven rows of pews in two columns, stained glass (signs) on
/// both side walls every third row.
pub open spec fn church_props(bx: int, by: int) -> Seq<(i32, i32, Props)> {
    let (ix, iy) = (bx + 1, by + 1);
    seq![
        ((ix + 7) as i32, iy as i32, Props::Table),
        ((ix + 6) as i32, iy as i32, Props::Sign),
        ((ix + 8) as i32, iy as i32, Props::Sign),
    ] + Seq::new(22, |k: int| ((if k % 2 == 0 { ix + 2 } else { ix + 11 }) as i32, (iy + 3 + k / 2) as i32, Props::Bench))
        + Seq::new(10, |k: int| ((if k % 2 == 0 { ix } else { ix + 13 }) as i32, (iy + 2 + 3 * (k / 2)) as i32, Props::Sign))
}

/// The tiles of the stone church at `(bx, by)`.
pub open spec fn church_tiles(m: &GameMap, bx: int, by: int) -> spec_fn(int, int) -> Voxel {
    mission_tower(
        put_all(
            shell(tiles(m), m, bx, by, 16, 20, Floor::StoneFloor, Some(Props::StoneWall), church_doors(bx, by)),
            m,
            church_props(bx, by),
        ),
        m,
        bx,
        by,
    )
}

/// The church's furniture list.
fn church_prop_list(bx: i32, by: i32) -> (r: Vec<(i32, i32, Props)>)
    requires
        -0x100_0000 <= bx <= 0x100_0000,
        -0x100_0000 <= by <= 0x100_0000,
    ensures
        r@ == church_props(bx as int, by as int),
{
    let ix = bx + 1;
    let iy = by + 1;
    let mut ops: Vec<(i32, i32, Props)> = Vec::new();
    ops.push((ix + 7, iy, Props::Table));
    ops.push((ix + 6, iy, Props::Sign));
    ops.push((ix + 8, iy, Props::Sign));
    let ghost head = ops@;
    let mut row: i32 = 3;
    while row < 14
        invariant
            -0x100_0000 <= bx <= 0x100_0000,
            -0x100_0000 <= by <= 0x100_0000,
            ix == bx + 1,
            iy == by + 1,
            3 <= row <= 14,
            head.len() == 3,
            ops@ =~= head + Seq::new(
                (2 * (row - 3)) as nat,
                |k: int| ((if k % 2 == 0 { ix + 2 } else { ix + 11 }) as i32, (iy + 3 + k / 2) as i32, Props::Bench),
            ),
        decreases 14 - row,
    {
        proof {
            let n = 2 * (row - 3);
            assert(n / 2 == row - 3 && (n + 1) / 2 == row - 3 && n % 2 == 0 && (n + 1) % 2 == 1);
        }
        ops.push((ix + 2, iy + row, Props::Bench));
        ops.push((ix + 11, iy + row, Props::Bench));
        row = row + 1;
    }
    let ghost pews = ops@;
    let mut row: i32 = 2;
    while row < 16
        invariant
            -0x100_0000 <= bx <= 0x100_0000,
            -0x100_0000 <= by <= 0x100_0000,
            ix == bx + 1,
            iy == by + 1,
            2 <= row <= 17,
            (row - 2) % 3 == 0,
            pews.len() == 25,
            ops@ =~= pews + Seq::new(
                (2 * ((row - 2) / 3)) as nat,
                |k: int| ((if k % 2 == 0 { ix as int } else { ix + 13 }) as i32, (iy + 2 + 3 * (k / 2)) as i32, Props::Sign),
            ),
        decreases 17 - row,
    {
        proof {
            let n = 2 * ((row - 2) / 3);
            assert(n / 2 == (row - 2) / 3 && (n + 1) / 2 == (row - 2) / 3 && n % 2 == 0 && (n + 1) % 2 == 1);
            assert(2 + 3 * ((row - 2) / 3) == row);
            assert((row + 3 - 2) / 3 == (row - 2) / 3 + 1);
        }
        ops.push((ix, iy + row, Props::Sign));
        ops.push((ix + 13, iy + row, Props::Sign));
        row = row + 3;
    }
    proof {
        assert(row == 17);
    }
    ops
}

/// Places the stone church: skipped on maps under 36 by 40; otherwise at
/// the first free one of sixteen sites (see `church_candidate`), if any:
/// stone walls with two front doors and a back door, an altar, pews,
/// stained glass, a bell tower's roof; its rectangle claimed.
pub fn place_stone_church(map: &mut GameMap, width: i32, height: i32, seed: NoiseSeed, buildings: &[Building])
    requires
        old(map).wf(),
        width <= MAX_STREET_SIDE,
        height <= MAX_STREET_SIDE,
        forall|i: int| 0 <= i < buildings@.len() ==> building_small(#[trigger] buildings@[i]),
    ensures
        ({
            let site = first_free_site(old(map), buildings@, church_candidates(width as int, height as int, seed), 16, 20);
            if width < 36 || height < 40 || site is None {
                unchanged(old(map), final(map))
            } else {
                let (bx, by) = site.unwrap();
                landmark_laid(old(map), final(map), church_tiles(old(map), bx, by), bx, by, 16, 20)
            }
        }),
{
    if width < 36 || height < 40 {
        return;
    }
    let ghost m0 = *map;
    let ghost cands = church_candidates(width as int, height as int, seed);
    let s = seed.wrapping_add(424242);
    proof {
        assert(cands.skip(0) =~= cands);
    }
    let mut k: i32 = 0;
    while k < 16
        invariant
            *map == m0,
            m0 == *old(map),
            m0.wf(),
            36 <= width <= MAX_STREET_SIDE,
            40 <= height <= MAX_STREET_SIDE,
            0 <= k <= 16,
            s == wadd64(seed, 424242),
            cands == church_candidates(width as int, height as int, seed),
            forall|i: int| 0 <= i < buildings@.len() ==> building_small(#[trigger] buildings@[i]),
            first_free_site(&m0, buildings@, cands, 16, 20) == first_free_site(&m0, buildings@, cands.skip(k as int), 16, 20),
        decreases 16 - k,
    {
        let qx = k % 4;
        let qy = k / 4;
        proof {
            assert(0 <= qx * (width / 5) <= 3 * 20000 && 0 <= qy * (height / 5) <= 3 * 20000) by (nonlinear_arith)
                requires
                    0 <= qx <= 3,
                    0 <= qy <= 3,
                    0 <= width / 5 <= 20000,
                    0 <= height / 5 <= 20000,
            ;
        }
        let cx = width / 5 + qx * (width / 5) + noise_scaled(qx + 11, qy + 11, s, 20);
        let cy = height / 5 + qy * (height / 5) + noise_scaled(qx + 12, qy + 12, s, 10);
        let bx = if cx - 8 < 2 { 2 } else if cx - 8 > width - 18 { width - 18 } else { cx - 8 };
        let by = if cy - 10 < 2 { 2 } else if cy - 10 > height - 22 { height - 22 } else { cy - 10 };
        proof {
            assert(((qx + 11) as int) as i32 == qx + 11 && ((qy + 11) as int) as i32 == qy + 11);
            assert(((qx + 12) as int) as i32 == qx + 12 && ((qy + 12) as int) as i32 == qy + 12);
            assert((bx as int, by as int) == church_candidate(width as int, height as int, seed, k as int));
            assert(cands.skip(k as int)[0] == cands[k as int]);
            assert(cands.skip(k as int).drop_first() =~= cands.skip(k + 1));
        }
        if site_is_free(map, buildings, bx, by, 16, 20) {
            proof {
                assert(first_free_site(&m0, buildings@, cands, 16, 20) == Some((bx as int, by as int)));
            }
            let doors = vec![(bx + 8, by + 19), (bx + 7, by + 19), (bx + 8, by)];
            proof {
                assert(doors@ =~= church_doors(bx as int, by as int));
            }
            lay_shell(map, bx, by, 16, 20, Floor::StoneFloor, Some(Props::StoneWall), &doors);
            let ghost shelled = shell(tiles(&m0), &m0, bx as int, by as int, 16, 20, Floor::StoneFloor, Some(Props::StoneWall), doors@);
            let ops = church_prop_list(bx, by);
            place_props(map, &ops, Ghost(shelled), Ghost(m0));
            let ghost furnished = put_all(shelled, &m0, ops@);
            let mut ty: i32 = 0;
            while ty < 3
                invariant
                    same_frame(&*map, &m0),
                    -0x100_0000 <= bx <= 0x100_0000,
                    -0x100_0000 <= by <= 0x100_0000,
                    0 <= ty <= 3,
                    forall|a: int, c: int|
                        map.in_bounds(a, c) ==> #[trigger] map.voxel(a, c) == if c < by + 1 + ty {
                            mission_tower(furnished, &m0, bx as int, by as int)(a, c)
                        } else {
                            furnished(a, c)
                        },
                decreases 3 - ty,
            {
                let mut tx: i32 = 0;
                while tx < 3
                    invariant
                        same_frame(&*map, &m0),
                        -0x100_0000 <= bx <= 0x100_0000,
                        -0x100_0000 <= by <= 0x100_0000,
                        0 <= ty < 3,
                        0 <= tx <= 3,
                        forall|a: int, c: int|
                            map.in_bounds(a, c) ==> #[trigger] map.voxel(a, c) == if c < by + 1 + ty || (c == by + 1 + ty && a < bx + 1 + tx) {
                                mission_tower(furnished, &m0, bx as int, by as int)(a, c)
                            } else {
                                furnished(a, c)
                            },
                    decreases 3 - tx,
                {
                    let px = bx + 1 + tx;
                    let py = by + 1 + ty;
                    match map.get_voxel_at(&GridVec::new(px, py)) {
                        Some(v) => {
                            put_voxel(map, px, py, Voxel { floor: Some(Floor::Rooftop), props: v.props });
                        },
                        None => {},
                    }
                    tx = tx + 1;
                }
                ty = ty + 1;
            }
            let ghost before_claim = *map;
            map.mark_occupied(bx, by, 16, 20);
            proof {
                let t = church_tiles(&m0, bx as int, by as int);
                assert forall|a: int, c: int| map.in_bounds(a, c) implies #[trigger] map.voxel(a, c) == t(a, c) by {
                    assert(before_claim.in_bounds(a, c));
                    assert(map.voxel(a, c) == before_claim.voxel(a, c));
                }
                assert forall|a: int, c: int| map.in_bounds(a, c) implies #[trigger] map.occupied(a, c) == claimed(&m0, bx as int, by as int, 16, 20, a, c) by {
                    assert(before_claim.in_bounds(a, c));
                    assert(before_claim.occupied(a, c) == m0.occupied(a, c));
                }
                assert(landmark_laid(&m0, &*map, t, bx as int, by as int, 16, 20));
            }
            return;
        }
        k = k + 1;
    }
    proof {
        assert(cands.skip(16) =~= Seq::<(int, int)>::empty());
    }
}

/// The faction and name of the anchor a building of kind `kind` founds,
/// if it founds one: the saloon the outlaws' cantina, the stable the
/// vaqueros' livery stable, the sheriff's office the police's marshal's
/// office, the bank the lawmen's, the hotel the civilians'.
pub open spec fn kind_anchor(kind: u32) -> Option<(Faction, Seq<char>)> {
    if kind == 1 {
        Some((Faction::Outlaws, "Cantina"@))
    } else if kind == 2 {
        Some((Faction::Vaqueros, "Livery Stable"@))
    } else if kind == 4 {
        Some((Faction::Police, "Marshal's Office"@))
    } else if kind == 7 {
        Some((Faction::Lawmen, "Bank"@))
    } else if kind == 8 {
        Some((Faction::Civilians, "Hotel"@))
    } else {
        None
    }
}

/// The centre tile of a building.
pub open spec fn building_center(b: Building) -> GridVec {
    GridVec { x: (b.x + b.w / 2) as i32, y: (b.y + b.h / 2) as i32 }
}

/// Whether `c` lies farther from the centre of a `w` by `h` map than a
/// quarter of its width.
pub open spec fn on_outskirts(c: GridVec, w: int, h: int) -> bool {
    let dx = c.x - w / 2;
    let dy = c.y - h / 2;
    dx * dx + dy * dy > (w / 4) * (w / 4)
}

/// The anchors founded by the first `n` of `bs` on a `w` by `h` map, the
/// kinds that founded one, and whether the hacienda was placed: the first
/// building of each anchoring kind founds its anchor, and the first house
/// on the outskirts becomes the Apache hacienda.
pub open spec fn anchor_scan(bs: Seq<Building>, w: int, h: int, n: int) -> (Seq<(GridVec, Faction, Seq<char>)>, Set<u32>, bool)
    decreases n,
{
    if n <= 0 {
        (Seq::empty(), Set::empty(), false)
    } else {
        let prev = anchor_scan(bs, w, h, n - 1);
        let b = bs[n - 1];
        let c = building_center(b);
        match kind_anchor(b.kind) {
            Some(fa) => if !prev.1.contains(b.kind) {
                (prev.0.push((c, fa.0, fa.1)), prev.1.insert(b.kind), prev.2)
            } else {
                prev
            },
            None => if b.kind == 0 && !prev.2 && on_outskirts(c, w, h) {
                (prev.0.push((c, Faction::Apache, "Hacienda"@)), prev.1, true)
            } else {
                prev
            },
        }
    }
}

/// Registers the faction anchors the placed buildings found (see
/// `anchor_scan`), after the anchors already on the map; nothing else of
/// the map changes.
pub fn assign_faction_anchors(map: &mut GameMap, buildings: &[Building])
    requires
        old(map).wf(),
        old(map).width <= 0x100_0000,
        old(map).height <= 0x100_0000,
        forall|i: int| 0 <= i < buildings@.len() ==> building_in_range(#[trigger] buildings@[i]),
    ensures
        final(map).wf(),
        final(map).width == old(map).width,
        final(map).height == old(map).height,
        final(map).voxels@ == old(map).voxels@,
        final(map).occupancy@ == old(map).occupancy@,
        final(map).fire_turns@ == old(map).fire_turns@,
        final(map).sand_cloud_turns@ == old(map).sand_cloud_turns@,
        final(map).sand_cloud_previous_floor@ == old(map).sand_cloud_previous_floor@,
        ({
            let scan = anchor_scan(buildings@, old(map).width as int, old(map).height as int, buildings@.len() as int).0;
            &&& final(map).faction_anchors@.len() == old(map).faction_anchors@.len() + scan.len()
            &&& forall|i: int|
                0 <= i < old(map).faction_anchors@.len() ==> #[trigger] final(map).faction_anchors@[i] == old(
                    map,
                ).faction_anchors@[i]
            &&& forall|i: int|
                0 <= i < scan.len() ==> {
                    let a = #[trigger] final(map).faction_anchors@[old(map).faction_anchors@.len() + i];
                    a.0 == scan[i].0 && a.1 == scan[i].1 && a.2@ == scan[i].2
                }
        }),
{
    let ghost m0 = *map;
    let ghost w = m0.width as int;
    let ghost h = m0.height as int;
    let base = map.faction_anchors.len();
    let mut u1 = false;
    let mut u2 = false;
    let mut u4 = false;
    let mut u7 = false;
    let mut u8 = false;
    let mut hacienda = false;
    let mut i: usize = 0;
    while i < buildings.len()
        invariant
            map.wf(),
            map.width == m0.width,
            map.height == m0.height,
            m0.width <= 0x100_0000,
            m0.height <= 0x100_0000,
            map.voxels@ == m0.voxels@,
            map.occupancy@ == m0.occupancy@,
            map.fire_turns@ == m0.fire_turns@,
            map.sand_cloud_turns@ == m0.sand_cloud_turns@,
            map.sand_cloud_previous_floor@ == m0.sand_cloud_previous_floor@,
            w == m0.width,
            h == m0.height,
            base == m0.faction_anchors@.len(),
            forall|j: int| 0 <= j < buildings@.len() ==> building_in_range(#[trigger] buildings@[j]),
            i <= buildings@.len(),
            ({
                let sc = anchor_scan(buildings@, w, h, i as int);
                &&& map.faction_anchors@.len() == base + sc.0.len()
                &&& forall|j: int| 0 <= j < base ==> #[trigger] map.faction_anchors@[j] == m0.faction_anchors@[j]
                &&& forall|j: int|
                    0 <= j < sc.0.len() ==> {
                        let a = #[trigger] map.faction_anchors@[base + j];
                        a.0 == sc.0[j].0 && a.1 == sc.0[j].1 && a.2@ == sc.0[j].2
                    }
                &&& sc.1.contains(1) == u1
                &&& sc.1.contains(2) == u2
                &&& sc.1.contains(4) == u4
                &&& sc.1.contains(7) == u7
                &&& sc.1.contains(8) == u8
                &&& sc.2 == hacienda
            }),
        decreases buildings@.len() - i,
    {
        let b = buildings[i];
        assert(building_in_range(buildings@[i as int]));
        let cx = b.x + b.w / 2;
        let cy = b.y + b.h / 2;
        let center = GridVec::new(cx, cy);
        let ghost before = map.faction_anchors@;
        let ghost prev = anchor_scan(buildings@, w, h, i as int);
        let mut pushed = false;
        if b.kind == 1 && !u1 {
            u1 = true;
            map.faction_anchors.push((center, Faction::Outlaws, "Cantina".to_string()));
            pushed = true;
        } else if b.kind == 2 && !u2 {
            u2 = true;
            map.faction_anchors.push((center, Faction::Vaqueros, "Livery Stable".to_string()));
            pushed = true;
        } else if b.kind == 4 && !u4 {
            u4 = true;
            map.faction_anchors.push((center, Faction::Police, "Marshal's Office".to_string()));
            pushed = true;
        } else if b.kind == 7 && !u7 {
            u7 = true;
            map.faction_anchors.push((center, Faction::Lawmen, "Bank".to_string()));
            pushed = true;
        } else if b.kind == 8 && !u8 {
            u8 = true;
            map.faction_anchors.push((center, Faction::Civilians, "Hotel".to_string()));
            pushed = true;
        } else if b.kind == 0 && !hacienda {
            let dx = cx as i64 - (map.width / 2) as i64;
            let dy = cy as i64 - (map.height / 2) as i64;
            let q = (map.width / 4) as i64;
            assert(-0x200_0000 <= dx <= 0x200_0000 && -0x200_0000 <= dy <= 0x200_0000 && 0 <= q <= 0x100_0000);
            assert(dx * dx <= 0x200_0000 * 0x200_0000) by (nonlinear_arith)
                requires -0x200_0000 <= dx <= 0x200_0000;
            assert(dy * dy <= 0x200_0000 * 0x200_0000) by (nonlinear_arith)
                requires -0x200_0000 <= dy <= 0x200_0000;
            assert(q * q <= 0x100_0000 * 0x100_0000) by (nonlinear_arith)
                requires 0 <= q <= 0x100_0000;
            assert(dx * dx >= 0 && dy * dy >= 0) by (nonlinear_arith);
            if dx * dx + dy * dy > q * q {
                hacienda = true;
                map.faction_anchors.push((center, Faction::Apache, "Hacienda".to_string()));
                pushed = true;
            }
        }
        proof {
            let sc = anchor_scan(buildings@, w, h, i as int + 1);
            assert(buildings@[i as int] == b);
            assert(building_center(b) == center);
            if pushed {
                assert(map.faction_anchors@ == before.push(map.faction_anchors@.last()));
                assert forall|j: int| 0 <= j < sc.0.len() implies {
                    let a = #[trigger] map.faction_anchors@[base + j];
                    a.0 == sc.0[j].0 && a.1 == sc.0[j].1 && a.2@ == sc.0[j].2
                } by {
                    if j < prev.0.len() {
                        assert(map.faction_anchors@[base + j] == before[base + j]);
                        assert(sc.0[j] == prev.0[j]);
                    }
                }
                assert forall|j: int| 0 <= j < base implies #[trigger] map.faction_anchors@[j] == m0.faction_anchors@[j] by {
                    assert(map.faction_anchors@[j] == before[j]);
                }
            }
        }
        i = i + 1;
    }
}

} // verus!
