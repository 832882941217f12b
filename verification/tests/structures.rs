use roguelike::gamemap::{set_prop, GameMap, Voxel};
use roguelike::graphics::{Floor, Props};
use roguelike::landmarks::place_stone_church;
use roguelike::noise::noise2d;
use roguelike::railroad::place_railroad;
use roguelike::structures::{place_cemetery, place_corral, place_gallows, place_town_well, place_water_tower, place_windmill};
use roguelike::town::{overlaps_any_building, Building};

fn map_of(w: i32, h: i32, floor: Floor) -> GameMap {
    let row = vec![Voxel { floor: Some(floor), props: None }; w as usize];
    GameMap {
        width: w,
        height: h,
        voxels: vec![row; h as usize],
        fire_turns: Vec::new(),
        sand_cloud_turns: Vec::new(),
        sand_cloud_previous_floor: Vec::new(),
        faction_anchors: Vec::new(),
        occupancy: vec![vec![false; h as usize]; w as usize],
    }
}

fn value_noise(x: i32, y: i32, seed: u64) -> f64 {
    noise2d(x, y, seed) as f64 / u32::MAX as f64
}

/// Sand with scattered roads, water, claimed tiles, walls and props.
fn varied_map(w: i32, h: i32, seed: u64) -> GameMap {
    let mut map = map_of(w, h, Floor::Sand);
    for y in 0..h {
        for x in 0..w {
            match noise2d(x, y, seed) % 211 {
                0 => map.voxels[y as usize][x as usize].floor = Some(Floor::DirtRoad),
                1 => map.occupancy[x as usize][y as usize] = true,
                2 => map.voxels[y as usize][x as usize].props = Some(Props::Cactus),
                3 => map.voxels[y as usize][x as usize].floor = Some(Floor::ShallowWater),
                4 => map.voxels[y as usize][x as usize].props = Some(Props::Wall),
                5 => map.voxels[y as usize][x as usize].floor = Some(Floor::Sidewalk),
                6 => map.voxels[y as usize][x as usize].floor = Some(Floor::WoodPlanks),
                _ => {}
            }
        }
    }
    map
}

fn same(a: &GameMap, b: &GameMap) -> bool {
    a.width == b.width && a.height == b.height && a.voxels == b.voxels && a.occupancy == b.occupancy
}

fn voxel_mut(map: &mut GameMap, x: i32, y: i32) -> Option<&mut Voxel> {
    if x >= 0 && y >= 0 && x < map.width && y < map.height {
        Some(&mut map.voxels[y as usize][x as usize])
    } else {
        None
    }
}

fn stamp(map: &mut GameMap, x0: i32, y0: i32, w: i32, h: i32, floor: Floor, wall: Option<Props>, doors: &[(i32, i32)]) {
    for y in y0..y0 + h {
        for x in x0..x0 + w {
            let border = x == x0 || x == x0 + w - 1 || y == y0 || y == y0 + h - 1;
            let props = if border && !doors.contains(&(x, y)) { wall } else { None };
            if let Some(v) = voxel_mut(map, x, y) {
                *v = Voxel { floor: Some(floor), props };
            }
        }
    }
}

fn reference_cemetery(map: &mut GameMap, width: i32, height: i32, seed: u64, bs: &[Building]) {
    let (cw, ch) = (14, 10);
    if width < cw + 20 || height < ch + 20 {
        return;
    }
    let s = seed.wrapping_add(999111);
    let cx = width * 3 / 4 + (value_noise(7, 7, s) * 10.0) as i32;
    let cy = height * 3 / 4 + (value_noise(8, 8, s) * 10.0) as i32;
    let px = (cx - cw / 2).clamp(2, width - cw - 2);
    let py = (cy - ch / 2).clamp(2, height - ch - 2);
    if overlaps_any_building(px, py, cw, ch, bs) || map.has_excluded_tile(px, py, cw, ch) {
        return;
    }
    stamp(map, px, py, cw, ch, Floor::Grass, Some(Props::Fence), &[(px + cw / 2, py + ch - 1)]);
    for row in (2..ch - 2).step_by(2) {
        for col in (2..cw - 2).step_by(3) {
            set_prop(map, px + col, py + row, Props::Rock);
        }
    }
}

fn reference_corral(map: &mut GameMap, width: i32, height: i32, seed: u64, bs: &[Building]) {
    let (cw, ch) = (12, 8);
    if width < cw + 20 || height < ch + 20 {
        return;
    }
    let s = seed.wrapping_add(888222);
    let cx = width / 4 + (value_noise(9, 9, s) * 10.0) as i32;
    let cy = height * 3 / 4 + (value_noise(10, 10, s) * 10.0) as i32;
    let px = (cx - cw / 2).clamp(2, width - cw - 2);
    let py = (cy - ch / 2).clamp(2, height - ch - 2);
    if overlaps_any_building(px, py, cw, ch, bs) || map.has_excluded_tile(px, py, cw, ch) {
        return;
    }
    stamp(map, px, py, cw, ch, Floor::Dirt, Some(Props::Fence), &[(px + cw / 2, py + ch - 1)]);
    set_prop(map, px + 2, py + 2, Props::HayBale);
    set_prop(map, px + 5, py + 2, Props::HayBale);
    set_prop(map, px + 8, py + 2, Props::HayBale);
    set_prop(map, px + cw / 2, py + ch / 2, Props::WaterTrough);
    set_prop(map, px + 2, py + ch - 3, Props::HitchingPost);
    set_prop(map, px + cw - 3, py + ch - 3, Props::HitchingPost);
}

fn reference_well(map: &mut GameMap, width: i32, height: i32, seed: u64) {
    if width < 60 || height < 60 {
        return;
    }
    let s = seed.wrapping_add(444555);
    let cx = width / 2 - 10 + (value_noise(4, 4, s) * 8.0) as i32;
    let cy = height / 2 - 10 + (value_noise(5, 5, s) * 8.0) as i32;
    let wx = cx.clamp(4, width - 4);
    let wy = cy.clamp(4, height - 4);
    if map.has_excluded_tile(wx - 1, wy - 1, 3, 3) {
        return;
    }
    for dy in -1..=1 {
        for dx in -1..=1 {
            if let Some(v) = voxel_mut(map, wx + dx, wy + dy) {
                *v = if dx == 0 && dy == 0 {
                    Voxel { floor: Some(Floor::ShallowWater), props: None }
                } else {
                    Voxel { floor: Some(Floor::Sidewalk), props: Some(Props::Well) }
                };
            }
        }
    }
}

fn reference_gallows(map: &mut GameMap, width: i32, height: i32, seed: u64) {
    if width < 80 || height < 60 {
        return;
    }
    let s = seed.wrapping_add(555777);
    let cx = width / 2 + 20 + (value_noise(3, 3, s) * 10.0) as i32;
    let cy = height / 2 - 15 + (value_noise(4, 4, s) * 10.0) as i32;
    let gx = cx.clamp(4, width - 8);
    let gy = cy.clamp(4, height - 8);
    if map.has_excluded_tile(gx, gy, 4, 4) {
        return;
    }
    stamp(map, gx, gy, 4, 4, Floor::WoodPlanks, None, &[]);
    set_prop(map, gx, gy, Props::Gallows);
    set_prop(map, gx, gy + 3, Props::Gallows);
    set_prop(map, gx + 1, gy, Props::Gallows);
}

fn reference_water_tower(map: &mut GameMap, width: i32, height: i32, seed: u64) {
    if width < 80 || height < 60 {
        return;
    }
    let s = seed.wrapping_add(666888);
    let cx = width / 4 + (value_noise(6, 6, s) * 20.0) as i32;
    let cy = height / 4 + (value_noise(7, 7, s) * 10.0) as i32;
    let tx = cx.clamp(4, width - 8);
    let ty = cy.clamp(4, height - 8);
    if map.has_excluded_tile(tx, ty, 5, 5) {
        return;
    }
    stamp(map, tx, ty, 5, 5, Floor::Dirt, None, &[]);
    set_prop(map, tx, ty, Props::WaterTower);
    set_prop(map, tx + 4, ty, Props::WaterTower);
    set_prop(map, tx, ty + 4, Props::WaterTower);
    set_prop(map, tx + 4, ty + 4, Props::WaterTower);
}

fn reference_windmill(map: &mut GameMap, width: i32, height: i32, seed: u64) {
    if width < 80 || height < 60 {
        return;
    }
    let s = seed.wrapping_add(888111);
    let cx = width * 3 / 4 + (value_noise(9, 9, s) * 15.0) as i32;
    let cy = height / 4 + (value_noise(10, 10, s) * 10.0) as i32;
    let mx = cx.clamp(4, width - 8);
    let my = cy.clamp(4, height - 8);
    if map.has_excluded_tile(mx, my, 5, 5) {
        return;
    }
    stamp(map, mx, my, 5, 5, Floor::WoodPlanks, Some(Props::Wall), &[(mx + 2, my + 4)]);
    set_prop(map, mx + 2, my - 1, Props::Windmill);
    set_prop(map, mx - 1, my + 2, Props::Windmill);
    set_prop(map, mx + 5, my + 2, Props::Windmill);
    set_prop(map, mx + 1, my + 1, Props::Barrel);
    set_prop(map, mx + 3, my + 1, Props::Barrel);
    set_prop(map, mx + 2, my + 2, Props::Crate);
}

fn reference_church(map: &mut GameMap, width: i32, height: i32, seed: u64, bs: &[Building]) {
    let (cw, ch) = (16, 20);
    if width < cw + 20 || height < ch + 20 {
        return;
    }
    let s = seed.wrapping_add(424242);
    for qy in 0..4 {
        for qx in 0..4 {
            let nx = (value_noise(qx + 11, qy + 11, s) * 20.0) as i32;
            let ny = (value_noise(qx + 12, qy + 12, s) * 10.0) as i32;
            let cx = width / 5 + qx * (width / 5) + nx;
            let cy = height / 5 + qy * (height / 5) + ny;
            let bx = (cx - cw / 2).clamp(2, width - cw - 2);
            let by = (cy - ch / 2).clamp(2, height - ch - 2);
            if overlaps_any_building(bx, by, cw, ch, bs) || map.has_excluded_tile(bx, by, cw, ch) {
                continue;
            }
            stamp(map, bx, by, cw, ch, Floor::StoneFloor, Some(Props::StoneWall), &[
                (bx + cw / 2, by + ch - 1),
                (bx + cw / 2 - 1, by + ch - 1),
                (bx + cw / 2, by),
            ]);
            let (ix, iy, iw, ih) = (bx + 1, by + 1, cw - 2, ch - 2);
            set_prop(map, ix + iw / 2, iy, Props::Table);
            set_prop(map, ix + iw / 2 - 1, iy, Props::Sign);
            set_prop(map, ix + iw / 2 + 1, iy, Props::Sign);
            for row in 3..ih.min(14) {
                set_prop(map, ix + 2, iy + row, Props::Bench);
                if iw >= 8 {
                    set_prop(map, ix + iw - 3, iy + row, Props::Bench);
                }
            }
            for row in (2..ih - 2).step_by(3) {
                set_prop(map, ix, iy + row, Props::Sign);
                set_prop(map, ix + iw - 1, iy + row, Props::Sign);
            }
            for dy in 0..3 {
                for dx in 0..3 {
                    if let Some(v) = voxel_mut(map, ix + dx, iy + dy) {
                        v.floor = Some(Floor::Rooftop);
                    }
                }
            }
            map.mark_occupied(bx, by, cw, ch);
            return;
        }
    }
}

fn reference_railroad(map: &mut GameMap, width: i32, height: i32, seed: u64) {
    if width < 80 || height < 80 {
        return;
    }
    let s = seed.wrapping_add(777999);
    let north = (10 + (value_noise(8, 8, s) * 6.0) as i32).clamp(6, 20);
    let south = (height - 10 - (value_noise(9, 9, s) * 6.0) as i32).clamp(height - 20, height - 6);
    for rail_y in [north, south] {
        for x in 4..width - 4 {
            let wobble = (value_noise(x, rail_y, s) * 1.5) as i32;
            let y = rail_y + wobble;
            if y <= 0 || y >= height - 1 {
                continue;
            }
            let v = map.voxels[y as usize][x as usize];
            if matches!(v.floor, Some(Floor::DirtRoad) | Some(Floor::Sidewalk)) {
                continue;
            }
            if matches!(v.props, Some(Props::Wall) | Some(Props::StoneWall)) {
                continue;
            }
            if matches!(v.floor, Some(Floor::ShallowWater) | Some(Floor::DeepWater) | Some(Floor::Beach) | Some(Floor::BeachSand)) {
                map.voxels[y as usize][x as usize] = Voxel { floor: Some(Floor::Bridge), props: Some(Props::RailTrack) };
                map.occupancy[x as usize][y as usize] = true;
                continue;
            }
            map.voxels[y as usize][x as usize] = Voxel { floor: Some(Floor::Gravel), props: Some(Props::RailTrack) };
            map.occupancy[x as usize][y as usize] = true;
            for dy in [-1, 1] {
                if let Some(side) = voxel_mut(map, x, y + dy) {
                    if side.props.is_none()
                        && !matches!(side.floor, Some(Floor::WoodPlanks) | Some(Floor::StoneFloor) | Some(Floor::ShallowWater)
                            | Some(Floor::DeepWater) | Some(Floor::DirtRoad) | Some(Floor::Sidewalk) | Some(Floor::Bridge))
                    {
                        side.floor = Some(Floor::Gravel);
                    }
                }
            }
        }
    }
}

fn town() -> Vec<Building> {
    vec![
        Building { x: 60, y: 60, w: 10, h: 8, kind: 0 },
        Building { x: 30, y: 90, w: 12, h: 10, kind: 1 },
        Building { x: 100, y: 30, w: 8, h: 8, kind: 6 },
    ]
}

type Pass = fn(&mut GameMap, i32, i32, u64, &[Building]);

fn check_pass(name: &str, ours: Pass, theirs: Pass) {
    let bs = town();
    for &(w, h) in &[(60, 50), (90, 70), (120, 110), (160, 140)] {
        for seed in 0..24u64 {
            for buildings in [&bs[..], &[][..]] {
                let mut a = varied_map(w, h, seed * 7 + 1);
                let mut b = varied_map(w, h, seed * 7 + 1);
                ours(&mut a, w, h, seed, buildings);
                theirs(&mut b, w, h, seed, buildings);
                assert!(same(&a, &b), "{name} differs for {w}x{h}, seed {seed}");
            }
        }
    }
}

#[test]
fn cemetery_matches_reference() {
    check_pass("cemetery", place_cemetery, reference_cemetery);
}

#[test]
fn corral_matches_reference() {
    check_pass("corral", place_corral, reference_corral);
}

#[test]
fn well_matches_reference() {
    check_pass("well", |m, w, h, s, _| place_town_well(m, w, h, s), |m, w, h, s, _| reference_well(m, w, h, s));
}

#[test]
fn gallows_matches_reference() {
    check_pass("gallows", |m, w, h, s, _| place_gallows(m, w, h, s), |m, w, h, s, _| reference_gallows(m, w, h, s));
}

#[test]
fn water_tower_matches_reference() {
    check_pass("water tower", |m, w, h, s, _| place_water_tower(m, w, h, s), |m, w, h, s, _| reference_water_tower(m, w, h, s));
}

#[test]
fn windmill_matches_reference() {
    check_pass("windmill", |m, w, h, s, _| place_windmill(m, w, h, s), |m, w, h, s, _| reference_windmill(m, w, h, s));
}

#[test]
fn stone_church_matches_reference() {
    check_pass("church", place_stone_church, reference_church);
}

#[test]
fn railroad_matches_reference() {
    check_pass("railroad", |m, w, h, s, _| place_railroad(m, w, h, s), |m, w, h, s, _| reference_railroad(m, w, h, s));
}

#[test]
fn well_is_a_stone_ring_round_water() {
    let mut map = map_of(100, 100, Floor::Sand);
    place_town_well(&mut map, 100, 100, 5);
    let mut centres = 0;
    for y in 1..99 {
        for x in 1..99 {
            if map.voxels[y][x].floor == Some(Floor::ShallowWater) {
                centres += 1;
                for dy in -1..=1i32 {
                    for dx in -1..=1i32 {
                        if dx != 0 || dy != 0 {
                            let v = map.voxels[(y as i32 + dy) as usize][(x as i32 + dx) as usize];
                            assert_eq!(v, Voxel { floor: Some(Floor::Sidewalk), props: Some(Props::Well) });
                        }
                    }
                }
            }
        }
    }
    assert_eq!(centres, 1);
}

#[test]
fn small_maps_get_no_structures() {
    let mut map = varied_map(30, 25, 3);
    let before = varied_map(30, 25, 3);
    place_cemetery(&mut map, 30, 25, 1, &[]);
    place_corral(&mut map, 30, 25, 1, &[]);
    place_town_well(&mut map, 30, 25, 1);
    place_gallows(&mut map, 30, 25, 1);
    place_water_tower(&mut map, 30, 25, 1);
    place_windmill(&mut map, 30, 25, 1);
    place_stone_church(&mut map, 30, 25, 1, &[]);
    place_railroad(&mut map, 30, 25, 1);
    assert!(same(&map, &before));
}

#[test]
fn railroad_claims_its_track_and_avoids_roads() {
    let mut map = map_of(100, 100, Floor::Sand);
    for y in 0..100 {
        map.voxels[y][50].floor = Some(Floor::DirtRoad);
    }
    place_railroad(&mut map, 100, 100, 11);
    let mut tracks = 0;
    for y in 0..100usize {
        for x in 0..100usize {
            if map.voxels[y][x].props == Some(Props::RailTrack) {
                tracks += 1;
                assert!(map.occupancy[x][y]);
                assert_ne!(x, 50);
            }
        }
        assert_eq!(map.voxels[y][50].floor, Some(Floor::DirtRoad));
    }
    assert_eq!(tracks, 2 * 91);
}
