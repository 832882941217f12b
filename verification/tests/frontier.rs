use roguelike::frontier::{place_outposts, place_rock_formations};
use roguelike::gamemap::{set_prop, GameMap, Voxel};
use roguelike::graphics::{Floor, Props};
use roguelike::noise::noise2d;
use roguelike::town::{overlaps_any_building, Building};

fn map_of(w: i32, h: i32, floor: Floor) -> GameMap {
    let row = vec![Voxel { floor: Some(floor), props: None }; w as usize];
    GameMap {
        width: w,
        height: h,
        voxels: vec![row; h as usize],
        fire_turns: Vec::new(),
        sand_cloud_turns: Vec::new(),
        sand_cloud_previous_floor: Vec::new(),
        faction_anchors: Vec::new(),
        occupancy: vec![vec![false; h as usize]; w as usize],
    }
}

fn value_noise(x: i32, y: i32, seed: u64) -> f64 {
    noise2d(x, y, seed) as f64 / u32::MAX as f64
}

fn varied_map(w: i32, h: i32, seed: u64) -> GameMap {
    let mut map = map_of(w, h, Floor::Sand);
    let floors = [Floor::Dirt, Floor::Sand, Floor::Gravel, Floor::StoneFloor, Floor::DirtRoad, Floor::Grass, Floor::ShallowWater];
    for y in 0..h {
        for x in 0..w {
            let n = noise2d(x, y, seed);
            if n % 5 == 0 {
                map.voxels[y as usize][x as usize].floor = Some(floors[((n >> 4) % 7) as usize]);
            }
            match (n >> 9) % 29 {
                0 => map.occupancy[x as usize][y as usize] = true,
                1 => map.voxels[y as usize][x as usize].props = Some(Props::Cactus),
                _ => {}
            }
        }
    }
    map
}

/// The outposts' spots as the game draws them: evenly round the centre,
/// jittered by the noise.
fn outpost_spots(width: i32, height: i32, seed: u64) -> Vec<(i32, i32)> {
    let s = seed.wrapping_add(191919);
    (0..4)
        .map(|i| {
            let angle = (i as f64 / 4.0) * std::f64::consts::TAU + value_noise(i, 0, s) * 0.8;
            let dist = (width.min(height) as f64 * 0.35) + value_noise(0, i, s) * 20.0;
            let ox = (width as f64 / 2.0 + angle.cos() * dist) as i32;
            let oy = (height as f64 / 2.0 + angle.sin() * dist) as i32;
            (ox, oy)
        })
        .collect()
}

fn reference_outposts(map: &mut GameMap, width: i32, height: i32, seed: u64, bs: &[Building]) {
    if width < 30 || height < 30 {
        return;
    }
    for (ox, oy) in outpost_spots(width, height, seed) {
        let ox = ox.clamp(8, width - 14);
        let oy = oy.clamp(8, height - 14);
        if overlaps_any_building(ox, oy, 6, 6, bs) || map.has_excluded_tile(ox, oy, 6, 6) {
            continue;
        }
        for dy in 0..6 {
            for dx in 0..6 {
                let (x, y) = (ox + dx, oy + dy);
                if x < 0 || y < 0 || x >= map.width || y >= map.height {
                    continue;
                }
                let border = dx == 0 || dx == 5 || dy == 0 || dy == 5;
                let door = dy == 5 && dx == 3;
                map.voxels[y as usize][x as usize] = Voxel {
                    floor: Some(Floor::StoneFloor),
                    props: if border && !door { Some(Props::StoneWall) } else { None },
                };
            }
        }
        set_prop(map, ox + 1, oy + 1, Props::Barrel);
        set_prop(map, ox + 4, oy + 1, Props::Crate);
        set_prop(map, ox + 3, oy + 3, Props::GunpowderBarrel);
    }
}

/// The rock formations' spots as the game draws them.
fn rock_spots(width: i32, height: i32, seed: u64) -> Vec<(i32, i32)> {
    let s = seed.wrapping_add(282828);
    (0..6)
        .map(|i| {
            let fx = (value_noise(i, 0, s) * (width - 60) as f64) as i32 + 30;
            let fy = (value_noise(0, i, s) * (height - 60) as f64) as i32 + 30;
            (fx, fy)
        })
        .collect()
}

fn reference_rocks(map: &mut GameMap, width: i32, height: i32, seed: u64) {
    if width < 80 || height < 80 {
        return;
    }
    let s = seed.wrapping_add(282828);
    for (i, (fx, fy)) in rock_spots(width, height, seed).into_iter().enumerate() {
        let i = i as i32;
        let d = ((fx - width / 2).pow(2) + (fy - height / 2).pow(2)) as f64;
        if d < (width as f64 / 4.0).powi(2) {
            continue;
        }
        let size = 5 + (value_noise(i, i, s.wrapping_add(111)) * 8.0) as i32;
        let mut placed = 0;
        'rows: for dy in -3i32..=3 {
            for dx in -3i32..=3 {
                if placed >= size {
                    break 'rows;
                }
                let (x, y) = (fx + dx, fy + dy);
                if value_noise(x, y, s.wrapping_add(222)) > 0.4 {
                    continue;
                }
                if x >= 0 && y >= 0 && x < map.width && y < map.height {
                    let v = map.voxels[y as usize][x as usize];
                    if v.props.is_some() {
                        continue;
                    }
                    if matches!(v.floor, Some(Floor::WoodPlanks) | Some(Floor::StoneFloor) | Some(Floor::ShallowWater)
                        | Some(Floor::DeepWater) | Some(Floor::DirtRoad) | Some(Floor::Bridge) | Some(Floor::BeachSand)) {
                        continue;
                    }
                }
                set_prop(map, x, y, Props::Rock);
                placed += 1;
            }
        }
    }
}

#[test]
fn outposts_match_reference() {
    let bs = vec![Building { x: 40, y: 40, w: 20, h: 20, kind: 0 }, Building { x: 10, y: 70, w: 8, h: 8, kind: 2 }];
    for seed in 0..30u64 {
        for &(w, h) in &[(100, 100), (60, 90), (200, 150), (31, 31)] {
            for buildings in [&bs[..], &[][..]] {
                let mut a = varied_map(w, h, seed);
                let mut b = varied_map(w, h, seed);
                place_outposts(&mut a, w, h, buildings, &outpost_spots(w, h, seed));
                reference_outposts(&mut b, w, h, seed, buildings);
                assert!(a.voxels == b.voxels && a.occupancy == b.occupancy, "seed {seed}, {w}x{h}");
            }
        }
    }
}

#[test]
fn outpost_is_a_walled_stone_room() {
    let mut map = map_of(100, 100, Floor::Sand);
    place_outposts(&mut map, 100, 100, &[], &[(50, 20)]);
    for dy in 0..6usize {
        for dx in 0..6usize {
            let v = map.voxels[20 + dy][50 + dx];
            assert_eq!(v.floor, Some(Floor::StoneFloor));
            let border = dx == 0 || dx == 5 || dy == 0 || dy == 5;
            if border && !(dy == 5 && dx == 3) {
                assert_eq!(v.props, Some(Props::StoneWall));
            }
        }
    }
    assert_eq!(map.voxels[25][53].props, None);
    assert_eq!(map.voxels[21][51].props, Some(Props::Barrel));
    assert_eq!(map.voxels[21][54].props, Some(Props::Crate));
    assert_eq!(map.voxels[23][53].props, Some(Props::GunpowderBarrel));
}

#[test]
fn outposts_skip_roads_and_small_maps() {
    let mut map = map_of(100, 100, Floor::DirtRoad);
    let before = map_of(100, 100, Floor::DirtRoad);
    place_outposts(&mut map, 100, 100, &[], &[(50, 20), (10, 10)]);
    assert!(map.voxels == before.voxels);
    let mut small = map_of(29, 100, Floor::Sand);
    place_outposts(&mut small, 29, 100, &[], &[(10, 10)]);
    assert!(small.voxels == map_of(29, 100, Floor::Sand).voxels);
}

#[test]
fn rock_formations_match_reference() {
    for seed in 0..40u64 {
        for &(w, h) in &[(400, 280), (120, 100), (90, 200), (79, 100)] {
            let mut a = varied_map(w, h, seed);
            let mut b = varied_map(w, h, seed);
            place_rock_formations(&mut a, w, h, seed, &rock_spots(w, h, seed));
            reference_rocks(&mut b, w, h, seed);
            assert!(a.voxels == b.voxels && a.occupancy == b.occupancy, "seed {seed}, {w}x{h}");
        }
    }
}

#[test]
fn rock_cluster_size_is_bounded() {
    let mut map = map_of(200, 200, Floor::Sand);
    place_rock_formations(&mut map, 200, 200, 3, &[(20, 20)]);
    let rocks = map.voxels.iter().flatten().filter(|v| v.props == Some(Props::Rock)).count();
    assert!(rocks <= 13);
    for y in 0..200usize {
        for x in 0..200usize {
            if map.voxels[y][x].props == Some(Props::Rock) {
                assert!((17..=23).contains(&x) && (17..=23).contains(&y));
            }
        }
    }
    let mut centre = map_of(200, 200, Floor::Sand);
    place_rock_formations(&mut centre, 200, 200, 3, &[(100, 100)]);
    assert!(centre.voxels.iter().flatten().all(|v| v.props.is_none()));
}
