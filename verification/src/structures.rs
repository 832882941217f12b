//! Small town structures: the cemetery, the corral, the town well, the
//! gallows, the water tower and the windmill. Each takes a site from the
//! seed, is skipped where the site holds road, water or beach (the
//! cemetery and corral also where it overlaps a building), and otherwise
//! lays its shell and sets its props. None of them claims its tiles.
use vstd::prelude::*;

use crate::gamemap::{put_voxel, same_frame, GameMap, Voxel};
use crate::graphics::{Floor, Props};
use crate::landmarks::{lay_shell, place_props, put_all, shell, site_free, site_is_free, unchanged};
use crate::noise::{fraction_scaled, noise2d_spec, noise_scaled, wadd64, NoiseSeed};
use crate::streets::{tiles, MAX_STREET_SIDE};
use crate::town::{building_small, clamp_int, Building};

verus! {

/// The map's tiles are `t`, the rest unchanged.
pub open spec fn stamped(old: &GameMap, new: &GameMap, t: spec_fn(int, int) -> Voxel) -> bool {
    same_frame(new, old) && forall|a: int, c: int| new.in_bounds(a, c) ==> #[trigger] new.voxel(a, c) == t(a, c)
}

/// No tile of the rectangle is road, water or beach.
pub open spec fn clear_of_excluded(m: &GameMap, x: int, y: int, w: int, h: int) -> bool {
    !exists|a: int, c: int| x <= a < x + w && y <= c < y + h && m.in_bounds(a, c) && #[trigger] m.excluded_at(a, c)
}

/// Lays a shell and then sets the listed props.
fn build_structure(
    map: &mut GameMap,
    x0: i32,
    y0: i32,
    w: i32,
    h: i32,
    floor: Floor,
    wall: Option<Props>,
    doors: &Vec<(i32, i32)>,
    ops: &Vec<(i32, i32, Props)>,
)
    requires
        old(map).wf(),
        -0x100_0000 <= x0 <= 0x100_0000,
        -0x100_0000 <= y0 <= 0x100_0000,
        0 <= w <= 1000,
        0 <= h <= 1000,
    ensures
        stamped(
            old(map),
            final(map),
            put_all(shell(tiles(old(map)), old(map), x0 as int, y0 as int, w as int, h as int, floor, wall, doors@), old(map), ops@),
        ),
{
    let ghost m0 = *map;
    lay_shell(map, x0, y0, w, h, floor, wall, doors);
    let ghost shelled = shell(tiles(&m0), &m0, x0 as int, y0 as int, w as int, h as int, floor, wall, doors@);
    place_props(map, ops, Ghost(shelled), Ghost(m0));
}

/// The cemetery's corner: toward the lower right, jittered by the noise
/// (0 to 10 each way), the 14 by 10 yard kept two tiles inside.
pub open spec fn cemetery_site(width: int, height: int, seed: u64) -> (int, int) {
    let s = wadd64(seed, 999111);
    let cx = width * 3 / 4 + fraction_scaled(noise2d_spec(7, 7, s), 10);
    let cy = height * 3 / 4 + fraction_scaled(noise2d_spec(8, 8, s), 10);
    (clamp_int(cx - 7, 2, width - 16), clamp_int(cy - 5, 2, height - 12))
}

/// Gravestones (rocks) in three rows of four.
pub open spec fn gravestones(px: int, py: int) -> Seq<(i32, i32, Props)> {
    Seq::new(12, |k: int| ((px + 2 + 3 * (k % 4)) as i32, (py + 2 + 2 * (k / 4)) as i32, Props::Rock))
}

/// Places the cemetery: skipped on maps under 34 by 30 or where its site
/// is not free; otherwise a fenced grass yard with a gate in the middle of
/// the bottom edge and rows of gravestones.
pub fn place_cemetery(map: &mut GameMap, width: i32, height: i32, seed: NoiseSeed, buildings: &[Building])
    requires
        old(map).wf(),
        width <= MAX_STREET_SIDE,
        height <= MAX_STREET_SIDE,
        forall|i: int| 0 <= i < buildings@.len() ==> building_small(#[trigger] buildings@[i]),
    ensures
        ({
            let (px, py) = cemetery_site(width as int, height as int, seed);
            if width < 34 || height < 30 || !site_free(old(map), buildings@, px, py, 14, 10) {
                unchanged(old(map), final(map))
            } else {
                stamped(
                    old(map),
                    final(map),
                    put_all(
                        shell(tiles(old(map)), old(map), px, py, 14, 10, Floor::Grass, Some(Props::Fence), seq![((px + 7) as i32, (py + 9) as i32)]),
                        old(map),
                        gravestones(px, py),
                    ),
                )
            }
        }),
{
    if width < 34 || height < 30 {
        return;
    }
    let s = seed.wrapping_add(999111);
    let cx = width * 3 / 4 + noise_scaled(7, 7, s, 10);
    let cy = height * 3 / 4 + noise_scaled(8, 8, s, 10);
    let px = if cx - 7 < 2 { 2 } else if cx - 7 > width - 16 { width - 16 } else { cx - 7 };
    let py = if cy - 5 < 2 { 2 } else if cy - 5 > height - 12 { height - 12 } else { cy - 5 };
    if !site_is_free(map, buildings, px, py, 14, 10) {
        return;
    }
    let doors = vec![(px + 7, py + 9)];
    let mut ops: Vec<(i32, i32, Props)> = Vec::new();
    let mut row: i32 = 0;
    while row < 3
        invariant
            -0x100_0000 <= px <= 0x100_0000,
            -0x100_0000 <= py <= 0x100_0000,
            0 <= row <= 3,
            ops@ =~= Seq::new(
                (4 * row) as nat,
                |k: int| ((px + 2 + 3 * (k % 4)) as i32, (py + 2 + 2 * (k / 4)) as i32, Props::Rock),
            ),
        decreases 3 - row,
    {
        let mut col: i32 = 0;
        while col < 4
            invariant
                -0x100_0000 <= px <= 0x100_0000,
                -0x100_0000 <= py <= 0x100_0000,
                0 <= row < 3,
                0 <= col <= 4,
                ops@ =~= Seq::new(
                    (4 * row + col) as nat,
                    |k: int| ((px + 2 + 3 * (k % 4)) as i32, (py + 2 + 2 * (k / 4)) as i32, Props::Rock),
                ),
            decreases 4 - col,
        {
            proof {
                let n = 4 * row + col;
                assert(n % 4 == col && n / 4 == row) by (nonlinear_arith)
                    requires
                        n == 4 * row + col,
                        0 <= col < 4,
                        0 <= row,
                ;
            }
            ops.push((px + 2 + 3 * col, py + 2 + 2 * row, Props::Rock));
            col = col + 1;
        }
        row = row + 1;
    }
    build_structure(map, px, py, 14, 10, Floor::Grass, Some(Props::Fence), &doors, &ops);
    proof {
        assert(doors@ =~= seq![((px + 7) as i32, (py + 9) as i32)]);
        assert(ops@ =~= gravestones(px as int, py as int));
    }
}

/// The corral's corner: toward the lower left, jittered by the noise
/// (0 to 10 each way), the 12 by 8 pen kept two tiles inside.
pub open spec fn corral_site(width: int, height: int, seed: u64) -> (int, int) {
    let s = wadd64(seed, 888222);
    let cx = width / 4 + fraction_scaled(noise2d_spec(9, 9, s), 10);
    let cy = height * 3 / 4 + fraction_scaled(noise2d_spec(10, 10, s), 10);
    (clamp_int(cx - 6, 2, width - 14), clamp_int(cy - 4, 2, height - 10))
}

/// The corral's hay bales, trough and hitching posts.
pub open spec fn corral_props(px: int, py: int) -> Seq<(i32, i32, Props)> {
    seq![
        ((px + 2) as i32, (py + 2) as i32, Props::HayBale),
        ((px + 5) as i32, (py + 2) as i32, Props::HayBale),
        ((px + 8) as i32, (py + 2) as i32, Props::HayBale),
        ((px + 6) as i32, (py + 4) as i32, Props::WaterTrough),
        ((px + 2) as i32, (py + 5) as i32, Props::HitchingPost),
        ((px + 9) as i32, (py + 5) as i32, Props::HitchingPost),
    ]
}

/// Places the livestock corral: skipped on maps under 32 by 28 or where
/// its site is not free; otherwise a fenced dirt pen with a gate in the
/// middle of the bottom edge, hay bales, a trough and hitching posts.
pub fn place_corral(map: &mut GameMap, width: i32, height: i32, seed: NoiseSeed, buildings: &[Building])
    requires
        old(map).wf(),
        width <= MAX_STREET_SIDE,
        height <= MAX_STREET_SIDE,
        forall|i: int| 0 <= i < buildings@.len() ==> building_small(#[trigger] buildings@[i]),
    ensures
        ({
            let (px, py) = corral_site(width as int, height as int, seed);
            if width < 32 || height < 28 || !site_free(old(map), buildings@, px, py, 12, 8) {
                unchanged(old(map), final(map))
            } else {
                stamped(
                    old(map),
                    final(map),
                    put_all(
                        shell(tiles(old(map)), old(map), px, py, 12, 8, Floor::Dirt, Some(Props::Fence), seq![((px + 6) as i32, (py + 7) as i32)]),
                        old(map),
                        corral_props(px, py),
                    ),
                )
            }
        }),
{
    if width < 32 || height < 28 {
        return;
    }
    let s = seed.wrapping_add(888222);
    let cx = width / 4 + noise_scaled(9, 9, s, 10);
    let cy = height * 3 / 4 + noise_scaled(10, 10, s, 10);
    let px = if cx - 6 < 2 { 2 } else if cx - 6 > width - 14 { width - 14 } else { cx - 6 };
    let py = if cy - 4 < 2 { 2 } else if cy - 4 > height - 10 { height - 10 } else { cy - 4 };
    if !site_is_free(map, buildings, px, py, 12, 8) {
        return;
    }
    let doors = vec![(px + 6, py + 7)];
    let ops = vec![
        (px + 2, py + 2, Props::HayBale),
        (px + 5, py + 2, Props::HayBale),
        (px + 8, py + 2, Props::HayBale),
        (px + 6, py + 4, Props::WaterTrough),
        (px + 2, py + 5, Props::HitchingPost),
        (px + 9, py + 5, Props::HitchingPost),
    ];
    build_structure(map, px, py, 12, 8, Floor::Dirt, Some(Props::Fence), &doors, &ops);
    proof {
        assert(doors@ =~= seq![((px + 6) as i32, (py + 7) as i32)]);
        assert(ops@ =~= corral_props(px as int, py as int));
    }
}

/// The well's centre: near the town centre, up and left by 10, jittered
/// by the noise (0 to 8 each way), kept four tiles inside.
pub open spec fn well_site(width: int, height: int, seed: u64) -> (int, int) {
    let s = wadd64(seed, 444555);
    let cx = width / 2 - 10 + fraction_scaled(noise2d_spec(4, 4, s), 8);
    let cy = height / 2 - 10 + fraction_scaled(noise2d_spec(5, 5, s), 8);
    (clamp_int(cx, 4, width - 4), clamp_int(cy, 4, height - 4))
}

/// The tiles with the well at `(wx, wy)`: water in the middle, a ring of
/// well stones on sidewalk around it.
pub open spec fn well_tiles(g: spec_fn(int, int) -> Voxel, m: &GameMap, wx: int, wy: int) -> spec_fn(int, int) -> Voxel {
    |a: int, c: int|
        if wx - 1 <= a <= wx + 1 && wy - 1 <= c <= wy + 1 && m.in_bounds(a, c) {
            if a == wx && c == wy {
                Voxel { floor: Some(Floor::ShallowWater), props: None }
            } else {
                Voxel { floor: Some(Floor::Sidewalk), props: Some(Props::Well) }
            }
        } else {
            g(a, c)
        }
}

/// Places the town well: skipped on maps under 60 by 60 or where its
/// three by three site holds road, water or beach.
pub fn place_town_well(map: &mut GameMap, width: i32, height: i32, seed: NoiseSeed)
    requires
        old(map).wf(),
        width <= MAX_STREET_SIDE,
        height <= MAX_STREET_SIDE,
    ensures
        ({
            let (wx, wy) = well_site(width as int, height as int, seed);
            if width < 60 || height < 60 || !clear_of_excluded(old(map), wx - 1, wy - 1, 3, 3) {
                unchanged(old(map), final(map))
            } else {
                stamped(old(map), final(map), well_tiles(tiles(old(map)), old(map), wx, wy))
            }
        }),
{
    if width < 60 || height < 60 {
        return;
    }
    let ghost m0 = *map;
    let s = seed.wrapping_add(444555);
    let cx = width / 2 - 10 + noise_scaled(4, 4, s, 8);
    let cy = height / 2 - 10 + noise_scaled(5, 5, s, 8);
    let wx = if cx < 4 { 4 } else if cx > width - 4 { width - 4 } else { cx };
    let wy = if cy < 4 { 4 } else if cy > height - 4 { height - 4 } else { cy };
    if map.has_excluded_tile(wx - 1, wy - 1, 3, 3) {
        return;
    }
    let ghost t = well_tiles(tiles(&m0), &m0, wx as int, wy as int);
    let mut dy: i32 = -1;
    while dy <= 1
        invariant
            same_frame(&*map, &m0),
            60 <= width <= MAX_STREET_SIDE,
            60 <= height <= MAX_STREET_SIDE,
            4 <= wx <= width - 4,
            4 <= wy <= height - 4,
            -1 <= dy <= 2,
            t == well_tiles(tiles(&m0), &m0, wx as int, wy as int),
            forall|a: int, c: int| map.in_bounds(a, c) ==> #[trigger] map.voxel(a, c) == if c < wy + dy { t(a, c) } else { m0.voxel(a, c) },
        decreases 2 - dy,
    {
        let mut dx: i32 = -1;
        while dx <= 1
            invariant
                same_frame(&*map, &m0),
                60 <= width <= MAX_STREET_SIDE,
                60 <= height <= MAX_STREET_SIDE,
                4 <= wx <= width - 4,
                4 <= wy <= height - 4,
                -1 <= dy <= 1,
                -1 <= dx <= 2,
                t == well_tiles(tiles(&m0), &m0, wx as int, wy as int),
                forall|a: int, c: int|
                    map.in_bounds(a, c) ==> #[trigger] map.voxel(a, c) == if c < wy + dy || (c == wy + dy && a < wx + dx) {
                        t(a, c)
                    } else {
                        m0.voxel(a, c)
                    },
            decreases 2 - dx,
        {
            let x = wx + dx;
            let y = wy + dy;
            if x >= 0 && x < map.width && y >= 0 && y < map.height {
                let v = if dx == 0 && dy == 0 {
                    Voxel { floor: Some(Floor::ShallowWater), props: None }
                } else {
                    Voxel { floor: Some(Floor::Sidewalk), props: Some(Props::Well) }
                };
                put_voxel(map, x, y, v);
            }
            dx = dx + 1;
        }
        dy = dy + 1;
    }
}

/// The gallows' corner: right of and above the centre, jittered by the
/// noise (0 to 10 each way), kept inside.
pub open spec fn gallows_site(width: int, height: int, seed: u64) -> (int, int) {
    let s = wadd64(seed, 555777);
    let cx = width / 2 + 20 + fraction_scaled(noise2d_spec(3, 3, s), 10);
    let cy = height / 2 - 15 + fraction_scaled(noise2d_spec(4, 4, s), 10);
    (clamp_int(cx, 4, width - 8), clamp_int(cy, 4, height - 8))
}

/// Places the gallows: skipped on maps under 80 by 60 or where its four
/// by four site holds road, water or beach; otherwise a plank platform
/// with gallows posts at two corners and the crossbeam.
pub fn place_gallows(map: &mut GameMap, width: i32, height: i32, seed: NoiseSeed)
    requires
        old(map).wf(),
        width <= MAX_STREET_SIDE,
        height <= MAX_STREET_SIDE,
    ensures
        ({
            let (gx, gy) = gallows_site(width as int, height as int, seed);
            if width < 80 || height < 60 || !clear_of_excluded(old(map), gx, gy, 4, 4) {
                unchanged(old(map), final(map))
            } else {
                stamped(
                    old(map),
                    final(map),
                    put_all(
                        shell(tiles(old(map)), old(map), gx, gy, 4, 4, Floor::WoodPlanks, None, Seq::empty()),
                        old(map),
                        seq![
                            (gx as i32, gy as i32, Props::Gallows),
                            (gx as i32, (gy + 3) as i32, Props::Gallows),
                            ((gx + 1) as i32, gy as i32, Props::Gallows),
                        ],
                    ),
                )
            }
        }),
{
    if width < 80 || height < 60 {
        return;
    }
    let s = seed.wrapping_add(555777);
    let cx = width / 2 + 20 + noise_scaled(3, 3, s, 10);
    let cy = height / 2 - 15 + noise_scaled(4, 4, s, 10);
    let gx = if cx < 4 { 4 } else if cx > width - 8 { width - 8 } else { cx };
    let gy = if cy < 4 { 4 } else if cy > height - 8 { height - 8 } else { cy };
    if map.has_excluded_tile(gx, gy, 4, 4) {
        return;
    }
    let ops = vec![(gx, gy, Props::Gallows), (gx, gy + 3, Props::Gallows), (gx + 1, gy, Props::Gallows)];
    build_structure(map, gx, gy, 4, 4, Floor::WoodPlanks, None, &Vec::new(), &ops);
    proof {
        assert(ops@ =~= seq![
            (gx as i32, gy as i32, Props::Gallows),
            (gx as i32, (gy + 3) as i32, Props::Gallows),
            ((gx + 1) as i32, gy as i32, Props::Gallows),
        ]);
    }
}

/// The water tower's corner: toward the upper left, jittered by the noise
/// (0 to 20 across, 0 to 10 down), kept inside.
pub open spec fn tower_site(width: int, height: int, seed: u64) -> (int, int) {
    let s = wadd64(seed, 666888);
    let cx = width / 4 + fraction_scaled(noise2d_spec(6, 6, s), 20);
    let cy = height / 4 + fraction_scaled(noise2d_spec(7, 7, s), 10);
    (clamp_int(cx, 4, width - 8), clamp_int(cy, 4, height - 8))
}

/// Places the water tower: skipped on maps under 80 by 60 or where its
/// five by five site holds road, water or beach; otherwise cleared dirt
/// with the tower's four legs at the corners.
pub fn place_water_tower(map: &mut GameMap, width: i32, height: i32, seed: NoiseSeed)
    requires
        old(map).wf(),
        width <= MAX_STREET_SIDE,
        height <= MAX_STREET_SIDE,
    ensures
        ({
            let (tx, ty) = tower_site(width as int, height as int, seed);
            if width < 80 || height < 60 || !clear_of_excluded(old(map), tx, ty, 5, 5) {
                unchanged(old(map), final(map))
            } else {
                stamped(
                    old(map),
                    final(map),
                    put_all(
                        shell(tiles(old(map)), old(map), tx, ty, 5, 5, Floor::Dirt, None, Seq::empty()),
                        old(map),
                        seq![
                            (tx as i32, ty as i32, Props::WaterTower),
                            ((tx + 4) as i32, ty as i32, Props::WaterTower),
                            (tx as i32, (ty + 4) as i32, Props::WaterTower),
                            ((tx + 4) as i32, (ty + 4) as i32, Props::WaterTower),
                        ],
                    ),
                )
            }
        }),
{
    if width < 80 || height < 60 {
        return;
    }
    let s = seed.wrapping_add(666888);
    let cx = width / 4 + noise_scaled(6, 6, s, 20);
    let cy = height / 4 + noise_scaled(7, 7, s, 10);
    let tx = if cx < 4 { 4 } else if cx > width - 8 { width - 8 } else { cx };
    let ty = if cy < 4 { 4 } else if cy > height - 8 { height - 8 } else { cy };
    if map.has_excluded_tile(tx, ty, 5, 5) {
        return;
    }
    let ops = vec![
        (tx, ty, Props::WaterTower),
        (tx + 4, ty, Props::WaterTower),
        (tx, ty + 4, Props::WaterTower),
        (tx + 4, ty + 4, Props::WaterTower),
    ];
    build_structure(map, tx, ty, 5, 5, Floor::Dirt, None, &Vec::new(), &ops);
    proof {
        assert(ops@ =~= seq![
            (tx as i32, ty as i32, Props::WaterTower),
            ((tx + 4) as i32, ty as i32, Props::WaterTower),
            (tx as i32, (ty + 4) as i32, Props::WaterTower),
            ((tx + 4) as i32, (ty + 4) as i32, Props::WaterTower),
        ]);
    }
}

/// The windmill's corner: toward the upper right, jittered by the noise
/// (0 to 15 across, 0 to 10 down), kept inside.
pub open spec fn windmill_site(width: int, height: int, seed: u64) -> (int, int) {
    let s = wadd64(seed, 888111);
    let cx = width * 3 / 4 + fraction_scaled(noise2d_spec(9, 9, s), 15);
    let cy = height / 4 + fraction_scaled(noise2d_spec(10, 10, s), 10);
    (clamp_int(cx, 4, width - 8), clamp_int(cy, 4, height - 8))
}

/// The windmill's blades around its base, then the grain store inside.
pub open spec fn windmill_props(mx: int, my: int) -> Seq<(i32, i32, Props)> {
    seq![
        ((mx + 2) as i32, (my - 1) as i32, Props::Windmill),
        ((mx - 1) as i32, (my + 2) as i32, Props::Windmill),
        ((mx + 5) as i32, (my + 2) as i32, Props::Windmill),
        ((mx + 1) as i32, (my + 1) as i32, Props::Barrel),
        ((mx + 3) as i32, (my + 1) as i32, Props::Barrel),
        ((mx + 2) as i32, (my + 2) as i32, Props::Crate),
    ]
}

/// Places the windmill: skipped on maps under 80 by 60 or where its five
/// by five site holds road, water or beach; otherwise a walled plank base
/// with a door in the middle of the bottom edge, its blades and its grain
/// store.
pub fn place_windmill(map: &mut GameMap, width: i32, height: i32, seed: NoiseSeed)
    requires
        old(map).wf(),
        width <= MAX_STREET_SIDE,
        height <= MAX_STREET_SIDE,
    ensures
        ({
            let (mx, my) = windmill_site(width as int, height as int, seed);
            if width < 80 || height < 60 || !clear_of_excluded(old(map), mx, my, 5, 5) {
                unchanged(old(map), final(map))
            } else {
                stamped(
                    old(map),
                    final(map),
                    put_all(
                        shell(tiles(old(map)), old(map), mx, my, 5, 5, Floor::WoodPlanks, Some(Props::Wall), seq![((mx + 2) as i32, (my + 4) as i32)]),
                        old(map),
                        windmill_props(mx, my),
                    ),
                )
            }
        }),
{
    if width < 80 || height < 60 {
        return;
    }
    let s = seed.wrapping_add(888111);
    let cx = width * 3 / 4 + noise_scaled(9, 9, s, 15);
    let cy = height / 4 + noise_scaled(10, 10, s, 10);
    let mx = if cx < 4 { 4 } else if cx > width - 8 { width - 8 } else { cx };
    let my = if cy < 4 { 4 } else if cy > height - 8 { height - 8 } else { cy };
    if map.has_excluded_tile(mx, my, 5, 5) {
        return;
    }
    let doors = vec![(mx + 2, my + 4)];
    let ops = vec![
        (mx + 2, my - 1, Props::Windmill),
        (mx - 1, my + 2, Props::Windmill),
        (mx + 5, my + 2, Props::Windmill),
        (mx + 1, my + 1, Props::Barrel),
        (mx + 3, my + 1, Props::Barrel),
        (mx + 2, my + 2, Props::Crate),
    ];
    build_structure(map, mx, my, 5, 5, Floor::WoodPlanks, Some(Props::Wall), &doors, &ops);
    proof {
        assert(doors@ =~= seq![((mx + 2) as i32, (my + 4) as i32)]);
        assert(ops@ =~= windmill_props(mx as int, my as int));
    }
}

} // verus!
