use roguelike::decor::{
    place_desert_decorations, place_exterior_props, place_gunpowder_barrels, place_lamp_posts, place_open_lot_scatter,
    place_street_props_curved,
};
use roguelike::gamemap::{set_prop, GameMap, Voxel};
use roguelike::graphics::{Floor, Props};
use roguelike::grid_vec::GridVec;
use roguelike::noise::noise2d;
use roguelike::town::Building;

fn map_of(w: i32, h: i32, floor: Floor) -> GameMap {
    let row = vec![Voxel { floor: Some(floor), props: None }; w as usize];
    GameMap {
        width: w,
        height: h,
        voxels: vec![row; h as usize],
        fire_turns: Vec::new(),
        sand_cloud_turns: Vec::new(),
        sand_cloud_previous_floor: Vec::new(),
        faction_anchors: Vec::new(),
        occupancy: vec![vec![false; h as usize]; w as usize],
    }
}

fn value_noise(x: i32, y: i32, seed: u64) -> f64 {
    noise2d(x, y, seed) as f64 / u32::MAX as f64
}

/// A map of mixed ground with claimed tiles, walls and props.
fn varied_map(w: i32, h: i32, seed: u64) -> GameMap {
    let mut map = map_of(w, h, Floor::Sand);
    let floors = [
        Floor::Dirt, Floor::Sand, Floor::Gravel, Floor::Sidewalk, Floor::WoodPlanks, Floor::StoneFloor, Floor::DirtRoad,
        Floor::Grass, Floor::ShallowWater, Floor::Bridge, Floor::BeachSand,
    ];
    for y in 0..h {
        for x in 0..w {
            let n = noise2d(x, y, seed);
            map.voxels[y as usize][x as usize].floor = Some(floors[(n % 11) as usize]);
            match (n >> 8) % 23 {
                0 => map.occupancy[x as usize][y as usize] = true,
                1 => map.voxels[y as usize][x as usize].props = Some(Props::Wall),
                2 => map.voxels[y as usize][x as usize].props = Some(Props::StoneWall),
                3 => map.voxels[y as usize][x as usize].props = Some(Props::Cactus),
                _ => {}
            }
        }
    }
    map
}

fn same(a: &GameMap, b: &GameMap) -> bool {
    a.voxels == b.voxels && a.occupancy == b.occupancy
}

fn reference_lamp_posts(map: &mut GameMap, height: i32, street_x: i32, seed: u64) {
    let lamp_seed = seed.wrapping_add(111333);
    for y in (40..height - 40).step_by(12) {
        if value_noise(street_x, y, lamp_seed) > 0.4 {
            continue;
        }
        for dx in [-3, 3] {
            let x = street_x + dx;
            if x >= 0 && y >= 0 && x < map.width && y < map.height {
                let v = map.voxels[y as usize][x as usize];
                if v.props.is_none() && matches!(v.floor, Some(Floor::Sidewalk) | Some(Floor::DirtRoad) | Some(Floor::Sand)) {
                    set_prop(map, x, y, Props::LampPost);
                }
            }
        }
    }
}

fn reference_street_props(map: &mut GameMap, tiles: &[(i32, i32)], seed: u64) {
    let s = seed.wrapping_add(77777);
    for (idx, &(x, y)) in tiles.iter().enumerate() {
        if idx % 4 != 0 {
            continue;
        }
        let noise = value_noise(x, y, s.wrapping_add(idx as u64));
        let prop = match (noise * 6.0) as u32 {
            0 => Props::HitchingPost,
            1 => Props::Bench,
            2 => Props::Barrel,
            3 => Props::WaterTrough,
            4 => Props::Sign,
            _ => Props::Crate,
        };
        set_prop(map, x, y, prop);
    }
}

fn reference_open_lots(map: &mut GameMap, lots: &[(i32, i32, i32, i32)], seed: u64) {
    let s = seed.wrapping_add(151515);
    for (i, &(lx, ly, lw, lh)) in lots.iter().enumerate() {
        let cx = lx + lw / 2;
        let cy = ly + lh / 2;
        let pick = value_noise(cx, cy, s.wrapping_add(i as u64));
        if pick < 0.25 {
            set_prop(map, cx, cy, Props::DeadTree);
        } else if pick < 0.50 {
            set_prop(map, cx, cy, Props::Crate);
            set_prop(map, cx + 1, cy, Props::Crate);
        } else if pick < 0.75 {
            set_prop(map, cx - 1, cy, Props::Rock);
            set_prop(map, cx + 1, cy, Props::Rock);
            set_prop(map, cx, cy - 1, Props::Rock);
            set_prop(map, cx, cy + 1, Props::Rock);
        } else {
            set_prop(map, cx, cy, Props::Bush);
            set_prop(map, cx + 1, cy, Props::Bush);
            set_prop(map, cx - 1, cy + 1, Props::Bush);
        }
    }
}

fn reference_exterior(map: &mut GameMap, b: &Building, seed: u64) {
    let s = seed.wrapping_add(b.x as u64 * 31 + b.y as u64 * 37);
    match b.kind {
        0 => {
            for dx in -1..=b.w {
                set_prop(map, b.x + dx, b.y + b.h, Props::Fence);
            }
            if value_noise(b.x, b.y, s) < 0.5 {
                set_prop(map, b.x + b.w / 2, b.y - 1, Props::Well);
            } else {
                set_prop(map, b.x + 1, b.y - 1, Props::Bush);
                set_prop(map, b.x + 2, b.y - 1, Props::Bush);
            }
        }
        1 => {
            set_prop(map, b.x + b.w / 3, b.y + b.h, Props::HitchingPost);
            set_prop(map, b.x + b.w * 2 / 3, b.y + b.h, Props::HitchingPost);
            for dy in (0..b.h).step_by(3) {
                set_prop(map, b.x - 1, b.y + dy, Props::Barrel);
            }
        }
        2 => {
            for dx in 0..b.w.min(6) {
                set_prop(map, b.x + dx, b.y - 1, Props::Fence);
            }
            set_prop(map, b.x + 2, b.y - 2, Props::HayBale);
            set_prop(map, b.x + 4, b.y - 2, Props::WaterTrough);
        }
        3 => {
            set_prop(map, b.x + b.w / 2 - 1, b.y + b.h, Props::Crate);
            set_prop(map, b.x + b.w / 2 + 1, b.y + b.h, Props::Barrel);
        }
        4 => {
            set_prop(map, b.x + b.w / 2, b.y + b.h, Props::HitchingPost);
            set_prop(map, b.x - 1, b.y + b.h / 2, Props::Sign);
        }
        _ => {}
    }
}

fn reference_barrels(map: &mut GameMap, width: i32, height: i32, seed: u64, spawn: GridVec) {
    let s = seed.wrapping_add(131313);
    for y in 2..height - 2 {
        for x in 2..width - 2 {
            if x >= map.width || y >= map.height {
                continue;
            }
            let v = map.voxels[y as usize][x as usize];
            if v.props.is_some() {
                continue;
            }
            if !matches!(v.floor, Some(Floor::Dirt) | Some(Floor::Sand) | Some(Floor::Gravel) | Some(Floor::Sidewalk)
                | Some(Floor::WoodPlanks) | Some(Floor::StoneFloor)) {
                continue;
            }
            let (dx, dy) = (x - spawn.x, y - spawn.y);
            if dx * dx + dy * dy < 100 {
                continue;
            }
            if value_noise(x, y, s) > 0.015 {
                continue;
            }
            let near_wall = [(x, y - 1), (x + 1, y), (x, y + 1), (x - 1, y)].iter().any(|&(nx, ny)| {
                nx >= 0 && ny >= 0 && nx < map.width && ny < map.height
                    && matches!(map.voxels[ny as usize][nx as usize].props, Some(Props::Wall) | Some(Props::StoneWall))
            });
            if near_wall || value_noise(y, x, s.wrapping_add(111)) < 0.3 {
                set_prop(map, x, y, Props::GunpowderBarrel);
            }
        }
    }
}

fn density(x: i32, y: i32) -> bool {
    noise2d(x / 5, y / 5, 4242) % 3 != 0
}

fn dense_mask(w: i32, h: i32) -> Vec<Vec<bool>> {
    (0..h).map(|y| (0..w).map(|x| density(x, y)).collect()).collect()
}

fn reference_desert(map: &mut GameMap, width: i32, height: i32, seed: u64, spawn: GridVec) {
    let deco = seed.wrapping_add(99999);
    for y in 1..height - 1 {
        for x in 1..width - 1 {
            if x >= map.width || y >= map.height {
                continue;
            }
            let v = map.voxels[y as usize][x as usize];
            if v.props.is_some() {
                continue;
            }
            if matches!(v.floor, Some(Floor::WoodPlanks) | Some(Floor::StoneFloor) | Some(Floor::DirtRoad)
                | Some(Floor::Sidewalk) | Some(Floor::Bridge) | Some(Floor::BeachSand)) {
                continue;
            }
            if map.occupancy[x as usize][y as usize] {
                continue;
            }
            let (dx, dy) = (x - spawn.x, y - spawn.y);
            if ((dx * dx + dy * dy) as f64) < 36.0 {
                continue;
            }
            if value_noise(x, y, deco) > 0.04 || !density(x, y) {
                continue;
            }
            let pick = value_noise(y, x, deco.wrapping_add(44444));
            let prop = if pick < 0.30 {
                Props::Cactus
            } else if pick < 0.50 {
                Props::DeadTree
            } else if pick < 0.65 {
                Props::Rock
            } else if pick < 0.80 {
                Props::Bush
            } else {
                Props::HayBale
            };
            set_prop(map, x, y, prop);
        }
    }
}

#[test]
fn lamp_posts_match_reference() {
    for seed in 0..40u64 {
        for &(h, sx) in &[(200, 50), (150, 3), (150, 97), (90, 40), (60, 20)] {
            let mut a = varied_map(100, 150, seed);
            let mut b = varied_map(100, 150, seed);
            place_lamp_posts(&mut a, h, sx, seed);
            reference_lamp_posts(&mut b, h, sx, seed);
            assert!(same(&a, &b), "seed {seed}, height {h}, street {sx}");
        }
    }
}

#[test]
fn lamp_posts_stand_beside_the_street() {
    let mut map = map_of(60, 200, Floor::Sidewalk);
    place_lamp_posts(&mut map, 200, 30, 9);
    let mut lamps = 0;
    for y in 0..200usize {
        for x in 0..60usize {
            if map.voxels[y][x].props == Some(Props::LampPost) {
                lamps += 1;
                assert!(x == 27 || x == 33);
                assert!(y >= 40 && y < 160 && (y - 40) % 12 == 0);
            }
        }
    }
    assert!(lamps % 2 == 0 && lamps <= 20);
}

#[test]
fn street_props_match_reference() {
    for seed in 0..30u64 {
        let tiles: Vec<(i32, i32)> = (0..97).map(|i| ((i * 7) % 60, (i * 13) % 50)).collect();
        let mut a = varied_map(60, 50, seed);
        let mut b = varied_map(60, 50, seed);
        place_street_props_curved(&mut a, &tiles, seed);
        reference_street_props(&mut b, &tiles, seed);
        assert!(same(&a, &b), "seed {seed}");
    }
}

#[test]
fn street_props_on_every_fourth_tile() {
    let mut map = map_of(40, 3, Floor::Sand);
    let tiles: Vec<(i32, i32)> = (0..40).map(|x| (x, 1)).collect();
    place_street_props_curved(&mut map, &tiles, 1);
    for x in 0..40usize {
        assert_eq!(map.voxels[1][x].props.is_some(), x % 4 == 0);
    }
}

#[test]
fn open_lot_scatter_matches_reference() {
    for seed in 0..30u64 {
        let lots: Vec<(i32, i32, i32, i32)> = (0..20)
            .map(|i| ((i * 11) % 50 - 3, (i * 17) % 40 - 2, (i % 7) * 3 - 4, (i % 5) * 4 - 3))
            .collect();
        let mut a = varied_map(60, 50, seed);
        let mut b = varied_map(60, 50, seed);
        place_open_lot_scatter(&mut a, &lots, seed);
        reference_open_lots(&mut b, &lots, seed);
        assert!(same(&a, &b), "seed {seed}");
    }
}

#[test]
fn exterior_props_match_reference() {
    for seed in 0..20u64 {
        for kind in 0..7u32 {
            for &(x, y, w, h) in &[(10, 10, 8, 6), (3, 4, 12, 9), (0, 0, 5, 5), (30, 20, 1, 1), (20, 25, 0, 7)] {
                let b = Building { x, y, w, h, kind };
                let mut m1 = varied_map(50, 40, seed + 100);
                let mut m2 = varied_map(50, 40, seed + 100);
                place_exterior_props(&mut m1, &b, seed);
                reference_exterior(&mut m2, &b, seed);
                assert!(same(&m1, &m2), "seed {seed}, {b:?}");
            }
        }
    }
}

#[test]
fn house_gets_a_fence_along_its_south_side() {
    let mut map = map_of(30, 30, Floor::Dirt);
    let b = Building { x: 10, y: 10, w: 6, h: 5, kind: 0 };
    place_exterior_props(&mut map, &b, 3);
    for x in 9..=16usize {
        assert_eq!(map.voxels[15][x].props, Some(Props::Fence));
    }
    assert_eq!(map.voxels[15][8].props, None);
    assert_eq!(map.voxels[15][17].props, None);
}

#[test]
fn gunpowder_barrels_match_reference() {
    for seed in 0..12u64 {
        for &spawn in &[GridVec::new(30, 30), GridVec::new(-5, 70), GridVec::new(100, 2)] {
            let mut a = varied_map(80, 70, seed);
            let mut b = varied_map(80, 70, seed);
            place_gunpowder_barrels(&mut a, 80, 70, seed, spawn);
            reference_barrels(&mut b, 80, 70, seed, spawn);
            assert!(same(&a, &b), "seed {seed}");
        }
    }
}

#[test]
fn no_gunpowder_near_spawn() {
    let mut map = map_of(120, 120, Floor::Dirt);
    for y in 0..120usize {
        for x in (0..120usize).step_by(2) {
            map.voxels[y][x].props = Some(Props::Wall);
        }
    }
    place_gunpowder_barrels(&mut map, 120, 120, 77, GridVec::new(60, 60));
    for y in 0..120i32 {
        for x in 0..120i32 {
            if map.voxels[y as usize][x as usize].props == Some(Props::GunpowderBarrel) {
                assert!((x - 60) * (x - 60) + (y - 60) * (y - 60) >= 100);
                assert!(x >= 2 && y >= 2 && x < 118 && y < 118);
            }
        }
    }
}

#[test]
fn desert_decorations_match_reference() {
    for seed in 0..12u64 {
        for &spawn in &[GridVec::new(40, 35), GridVec::new(0, 0)] {
            let mut a = varied_map(80, 70, seed);
            let mut b = varied_map(80, 70, seed);
            place_desert_decorations(&mut a, 80, 70, seed, spawn, &dense_mask(80, 70));
            reference_desert(&mut b, 80, 70, seed, spawn);
            assert!(same(&a, &b), "seed {seed}");
        }
    }
}

#[test]
fn desert_decorations_respect_the_density_mask() {
    let mut map = map_of(200, 200, Floor::Sand);
    let mask = vec![vec![false; 200]; 200];
    place_desert_decorations(&mut map, 200, 200, 5, GridVec::new(100, 100), &mask);
    assert!(map.voxels.iter().all(|row| row.iter().all(|v| v.props.is_none())));
    let full = vec![vec![true; 200]; 200];
    place_desert_decorations(&mut map, 200, 200, 5, GridVec::new(100, 100), &full);
    let count = map.voxels.iter().flatten().filter(|v| v.props.is_some()).count();
    assert!(count > 0 && count < 200 * 200 / 10);
}
