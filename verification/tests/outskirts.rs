use roguelike::gamemap::{set_prop, GameMap, Voxel};
use roguelike::graphics::{Floor, Props};
use roguelike::noise::noise2d;
use roguelike::outskirts::place_transition_zones;
use roguelike::town::Building;

fn map_of(w: i32, h: i32, floor: Floor) -> GameMap {
    let row = vec![Voxel { floor: Some(floor), props: None }; w as usize];
    GameMap {
        width: w,
        height: h,
        voxels: vec![row; h as usize],
        fire_turns: Vec::new(),
        sand_cloud_turns: Vec::new(),
        sand_cloud_previous_floor: Vec::new(),
        faction_anchors: Vec::new(),
        occupancy: vec![vec![false; h as usize]; w as usize],
    }
}

fn value_noise(x: i32, y: i32, seed: u64) -> f64 {
    noise2d(x, y, seed) as f64 / u32::MAX as f64
}

/// The outskirts pass written directly with the float formulas.
fn reference_outskirts(map: &mut GameMap, width: i32, height: i32, seed: u64, buildings: &[Building]) {
    if width < 60 || height < 40 || buildings.is_empty() {
        return;
    }
    let ts = seed.wrapping_add(121212);
    let min_x = buildings.iter().map(|b| b.x).min().unwrap();
    let min_y = buildings.iter().map(|b| b.y).min().unwrap();
    let max_x = buildings.iter().map(|b| b.x + b.w).max().unwrap();
    let max_y = buildings.iter().map(|b| b.y + b.h).max().unwrap();
    let n = 12 + (value_noise(0, 0, ts) * 8.0) as i32;
    for i in 0..n {
        let x = (value_noise(i, 0, ts) * width as f64).clamp(4.0, (width - 6) as f64) as i32;
        let y = (value_noise(0, i, ts) * height as f64).clamp(4.0, (height - 6) as f64) as i32;
        if x >= min_x - 5 && x <= max_x + 5 && y >= min_y - 5 && y <= max_y + 5 {
            continue;
        }
        let v = map.voxels[y as usize][x as usize];
        if v.props.is_some() || matches!(v.floor, Some(Floor::ShallowWater) | Some(Floor::DeepWater) | Some(Floor::Bridge)) {
            continue;
        }
        let pick = value_noise(i, i, ts.wrapping_add(111));
        if pick < 0.25 {
            set_prop(map, x, y, Props::DeadTree);
        } else if pick < 0.45 {
            for dx in 0..4 {
                set_prop(map, x + dx, y, Props::Fence);
            }
        } else if pick < 0.65 {
            set_prop(map, x, y, Props::Rock);
            set_prop(map, x + 1, y, Props::Rock);
            set_prop(map, x, y + 1, Props::Barrel);
        } else if pick < 0.80 {
            set_prop(map, x, y, Props::Crate);
            set_prop(map, x + 1, y, Props::Crate);
        } else {
            set_prop(map, x, y, Props::Bush);
            set_prop(map, x + 1, y + 1, Props::Bush);
        }
    }
    let ss = ts.wrapping_add(333);
    let shacks = 4 + (value_noise(1, 1, ss) * 4.0) as i32;
    for i in 0..shacks {
        let sx = (value_noise(i, 2, ss) * width as f64).clamp(8.0, (width - 12) as f64) as i32;
        let sy = (value_noise(2, i, ss) * height as f64).clamp(8.0, (height - 12) as f64) as i32;
        if sx >= min_x - 10 && sx <= max_x + 10 && sy >= min_y - 10 && sy <= max_y + 10 {
            continue;
        }
        if matches!(map.voxels[sy as usize][sx as usize].floor, Some(Floor::ShallowWater) | Some(Floor::DeepWater)) {
            continue;
        }
        if sx + 4 >= width - 1 || sy + 4 >= height - 1 {
            continue;
        }
        for dy in 0..4 {
            for dx in 0..4 {
                let v = &mut map.voxels[(sy + dy) as usize][(sx + dx) as usize];
                if matches!(v.floor, Some(Floor::ShallowWater) | Some(Floor::DeepWater)) {
                    continue;
                }
                let border = dx == 0 || dx == 3 || dy == 0 || dy == 3;
                let door = dy == 3 && dx == 2;
                let ruin = value_noise(sx + dx, sy + dy, ss.wrapping_add(i as u64));
                if border && !door && ruin < 0.7 {
                    *v = Voxel { floor: Some(Floor::WoodPlanks), props: Some(Props::Wall) };
                } else {
                    *v = Voxel { floor: Some(Floor::WoodPlanks), props: None };
                }
            }
        }
        let (door_x, door_y) = (sx + 2, sy + 4);
        let (tcx, tcy) = ((min_x + max_x) / 2, (min_y + max_y) / 2);
        let pdx = if tcx > door_x { 1 } else { -1 };
        let pdy = if tcy > door_y { 1 } else { -1 };
        let (mut px, mut py) = (door_x, door_y);
        for _ in 0..15 {
            if px <= 0 || px >= width - 1 || py <= 0 || py >= height - 1 {
                break;
            }
            let v = &mut map.voxels[py as usize][px as usize];
            if !matches!(v.props, Some(Props::Wall) | Some(Props::StoneWall))
                && !matches!(v.floor, Some(Floor::ShallowWater) | Some(Floor::DeepWater))
            {
                *v = Voxel { floor: Some(Floor::Dirt), props: None };
            }
            if value_noise(px, py, ss.wrapping_add(777)) < 0.5 {
                px += pdx;
            } else {
                py += pdy;
            }
        }
    }
}

fn town() -> Vec<Building> {
    vec![
        Building { x: 150, y: 100, w: 10, h: 8, kind: 1 },
        Building { x: 175, y: 110, w: 8, h: 8, kind: 0 },
        Building { x: 200, y: 130, w: 12, h: 9, kind: 6 },
    ]
}

fn varied_map(w: i32, h: i32) -> GameMap {
    let mut map = map_of(w, h, Floor::Sand);
    for y in 0..h {
        for x in 0..w {
            let k = noise2d(x, y, 5) % 23;
            let v = &mut map.voxels[y as usize][x as usize];
            if k == 0 {
                v.floor = Some(Floor::ShallowWater);
            } else if k == 1 {
                v.props = Some(Props::Cactus);
            } else if k == 2 {
                v.floor = Some(Floor::DirtRoad);
            } else if k == 3 {
                map.occupancy[x as usize][y as usize] = true;
            }
        }
    }
    map
}

#[test]
fn outskirts_match_the_outskirts_pass() {
    for seed in [0u64, 3, 42, 99, 2024] {
        let (w, h) = (400, 280);
        let mut expected = varied_map(w, h);
        reference_outskirts(&mut expected, w, h, seed, &town());
        let mut map = varied_map(w, h);
        place_transition_zones(&mut map, w, h, seed, &town());
        assert_eq!(map.voxels, expected.voxels, "seed {seed}");
        assert_ne!(map.voxels, varied_map(w, h).voxels, "seed {seed} changed something");
    }
}

#[test]
fn outskirts_leave_small_maps_alone() {
    let mut map = map_of(59, 80, Floor::Sand);
    place_transition_zones(&mut map, 59, 80, 1, &town());
    assert_eq!(map.voxels, map_of(59, 80, Floor::Sand).voxels);
    let mut map = map_of(100, 100, Floor::Sand);
    place_transition_zones(&mut map, 100, 100, 1, &[]);
    assert_eq!(map.voxels, map_of(100, 100, Floor::Sand).voxels);
}

