use roguelike::blocks::{building_site_clear, place_buildings, place_park};
use roguelike::gamemap::{set_prop, GameMap, Voxel};
use roguelike::graphics::{Floor, Props};
use roguelike::grid_vec::GridVec;
use roguelike::noise::noise2d;
use roguelike::resources::GameMapResource;
use roguelike::town::Building;

fn map_of(w: i32, h: i32, floor: Floor) -> GameMap {
    let row = vec![Voxel { floor: Some(floor), props: None }; w as usize];
    GameMap {
        width: w,
        height: h,
        voxels: vec![row; h as usize],
        fire_turns: Vec::new(),
        sand_cloud_turns: Vec::new(),
        sand_cloud_previous_floor: Vec::new(),
        faction_anchors: Vec::new(),
        occupancy: vec![vec![false; h as usize]; w as usize],
    }
}

fn value_noise(x: i32, y: i32, seed: u64) -> f64 {
    noise2d(x, y, seed) as f64 / u32::MAX as f64
}

fn varied_map(w: i32, h: i32, seed: u64) -> GameMap {
    let mut map = map_of(w, h, Floor::Sand);
    let floors = [Floor::Dirt, Floor::Sand, Floor::Sidewalk, Floor::DirtRoad, Floor::Beach, Floor::ShallowWater, Floor::Bridge, Floor::Grass];
    for y in 0..h {
        for x in 0..w {
            let n = noise2d(x, y, seed);
            if n % 41 == 0 {
                map.voxels[y as usize][x as usize].floor = Some(floors[((n >> 6) % 8) as usize]);
            }
            match (n >> 12) % 37 {
                0 => map.occupancy[x as usize][y as usize] = true,
                1 => map.voxels[y as usize][x as usize].props = Some(Props::Wall),
                _ => {}
            }
        }
    }
    map
}

fn reference_site_clear(map: &GameMap, b: &Building) -> bool {
    let points = [
        GridVec::new(b.x, b.y),
        GridVec::new(b.x + b.w - 1, b.y),
        GridVec::new(b.x, b.y + b.h - 1),
        GridVec::new(b.x + b.w - 1, b.y + b.h - 1),
        GridVec::new(b.x + b.w / 2, b.y + b.h / 2),
        GridVec::new(b.x + b.w / 2, b.y + b.h),
    ];
    let on_excluded = points.iter().any(|p| {
        map.get_voxel_at(p).is_some_and(|v| {
            matches!(v.floor, Some(Floor::DirtRoad) | Some(Floor::ShallowWater) | Some(Floor::DeepWater)
                | Some(Floor::Beach) | Some(Floor::BeachSand))
        })
    });
    !on_excluded && !map.is_occupied(b.x, b.y, b.w, b.h)
}

fn reference_park(map: &mut GameMap, px: i32, py: i32, pw: i32, ph: i32, seed: u64) {
    let on_road = (px..px + pw).any(|rx| {
        (py..py + ph).any(|ry| {
            map.get_voxel_at(&GridVec::new(rx, ry)).is_some_and(|v| {
                matches!(v.floor, Some(Floor::DirtRoad) | Some(Floor::Sidewalk) | Some(Floor::Bridge)
                    | Some(Floor::ShallowWater) | Some(Floor::DeepWater) | Some(Floor::Beach) | Some(Floor::BeachSand))
            })
        })
    });
    if on_road {
        return;
    }
    for y in py..py + ph {
        for x in px..px + pw {
            if x < map.width && y < map.height {
                map.voxels[y as usize][x as usize] = Voxel { floor: Some(Floor::Grass), props: None };
            }
        }
    }
    let s = seed.wrapping_add(px as u64 * 31 + py as u64 * 37);
    if pw >= 4 && ph >= 4 {
        set_prop(map, px + 1, py + 1, Props::Bench);
        set_prop(map, px + pw - 2, py + 1, Props::Bench);
        set_prop(map, px + pw / 2, py + ph / 2, Props::Bush);
        if value_noise(px, py, s) < 0.5 {
            set_prop(map, px + pw / 2 - 1, py + ph - 2, Props::Bush);
            set_prop(map, px + pw / 2 + 1, py + ph - 2, Props::Bush);
        } else {
            set_prop(map, px + 1, py + ph - 2, Props::Well);
        }
    }
}

#[test]
fn site_check_matches_reference() {
    for seed in 0..20u64 {
        let map = varied_map(60, 50, seed);
        for x in (-4..60).step_by(5) {
            for y in (-4..50).step_by(4) {
                for &(w, h) in &[(6, 5), (10, 8), (1, 1), (0, 3), (-3, 4)] {
                    let b = Building { x, y, w, h, kind: 0 };
                    assert_eq!(building_site_clear(&map, &b), reference_site_clear(&map, &b), "{b:?}");
                }
            }
        }
    }
}

#[test]
fn site_on_road_is_refused() {
    let mut map = map_of(20, 20, Floor::Sand);
    let b = Building { x: 5, y: 5, w: 6, h: 4, kind: 0 };
    assert!(building_site_clear(&map, &b));
    map.voxels[9][8].floor = Some(Floor::DirtRoad); // the entrance tile
    assert!(!building_site_clear(&map, &b));
    map.voxels[9][8].floor = Some(Floor::Sand);
    map.occupancy[7][6] = true;
    assert!(!building_site_clear(&map, &b));
}

#[test]
fn parks_match_reference() {
    for seed in 0..25u64 {
        for &(px, py, pw, ph) in &[(3, 3, 8, 6), (10, 20, 4, 4), (40, 30, 30, 30), (0, 0, 3, 9), (12, 5, 6, 0)] {
            let mut a = varied_map(60, 50, seed);
            let mut b = varied_map(60, 50, seed);
            place_park(&mut a, px, py, pw, ph, seed);
            reference_park(&mut b, px, py, pw, ph, seed);
            assert!(a.voxels == b.voxels && a.occupancy == b.occupancy, "seed {seed}");
        }
    }
}

#[test]
fn park_is_grass_with_benches() {
    let mut map = map_of(20, 20, Floor::Sand);
    place_park(&mut map, 2, 2, 8, 6, 1);
    for y in 2..8usize {
        for x in 2..10usize {
            assert_eq!(map.voxels[y][x].floor, Some(Floor::Grass));
        }
    }
    assert_eq!(map.voxels[3][3].props, Some(Props::Bench));
    assert_eq!(map.voxels[3][8].props, Some(Props::Bench));
    assert_eq!(map.voxels[5][6].props, Some(Props::Bush));
    let mut road = map_of(20, 20, Floor::Sand);
    road.voxels[7][9].floor = Some(Floor::Sidewalk);
    let before = road.voxels.clone();
    place_park(&mut road, 2, 2, 8, 6, 1);
    assert!(road.voxels == before);
}

#[test]
fn sand_cloud_covers_offsets_and_remembers_the_ground() {
    let mut map = map_of(10, 10, Floor::Dirt);
    map.voxels[5][6].floor = Some(Floor::Grass);
    map.voxels[4][5].props = Some(Props::Wall);
    let mut res = GameMapResource(map);
    let offsets = [(0, 0), (1, 0), (0, -1), (-9, 0), (1, 0)];
    res.place_sand_cloud(GridVec::new(5, 5), 7, &offsets);
    let m = &res.0;
    assert_eq!(m.voxels[5][5].floor, Some(Floor::SandCloud));
    assert_eq!(m.voxels[5][6].floor, Some(Floor::SandCloud));
    // A timber wall keeps its ground; off-map offsets are ignored.
    assert_eq!(m.voxels[4][5].floor, Some(Floor::Dirt));
    assert_eq!(m.sand_cloud_turns.len(), 2);
    assert!(m.sand_cloud_turns.contains(&(GridVec::new(5, 5), 7)));
    assert!(m.sand_cloud_turns.contains(&(GridVec::new(6, 5), 7)));
    assert!(m.sand_cloud_previous_floor.contains(&(GridVec::new(6, 5), Some(Floor::Grass))));
    assert!(m.sand_cloud_previous_floor.contains(&(GridVec::new(5, 5), Some(Floor::Dirt))));
    // A second cloud refreshes the turn but keeps the first remembered ground.
    res.place_sand_cloud(GridVec::new(6, 5), 9, &[(0, 0), (1, 0)]);
    let m = &res.0;
    assert!(m.sand_cloud_turns.contains(&(GridVec::new(6, 5), 9)));
    assert!(m.sand_cloud_turns.contains(&(GridVec::new(7, 5), 9)));
    assert!(m.sand_cloud_turns.contains(&(GridVec::new(5, 5), 7)));
    assert!(m.sand_cloud_previous_floor.contains(&(GridVec::new(6, 5), Some(Floor::Grass))));
    assert_eq!(m.sand_cloud_previous_floor.len(), 3);
}

#[test]
fn place_buildings_skips_a_building_whose_site_was_taken() {
    let mut map = map_of(60, 40, Floor::Sand);
    let planned = vec![
        Building { x: 5, y: 5, w: 10, h: 8, kind: 0 },
        Building { x: 8, y: 7, w: 10, h: 8, kind: 0 },
        Building { x: 30, y: 5, w: 10, h: 8, kind: 2 },
    ];
    let placed = place_buildings(&mut map, &planned, 7);
    assert_eq!(placed, vec![planned[0], planned[2]]);
    assert!(map.occupancy[5][5] && map.occupancy[30][5]);
    assert!(!map.occupancy[17][14]);
}

#[test]
fn place_buildings_skips_a_building_on_the_road() {
    let mut map = map_of(40, 30, Floor::Sand);
    map.voxels[5][5].floor = Some(Floor::DirtRoad);
    let planned = vec![Building { x: 5, y: 5, w: 8, h: 8, kind: 0 }];
    let placed = place_buildings(&mut map, &planned, 3);
    assert!(placed.is_empty());
    assert!(!map.occupancy[5][5]);
}
