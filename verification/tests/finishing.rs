use roguelike::finishing::{clear_around, clear_water_props, find_house_exterior, place_alleys, spawn_clearing_center};
use roguelike::gamemap::{GameMap, Voxel};
use roguelike::graphics::{Floor, Props};
use roguelike::grid_vec::GridVec;
use roguelike::noise::noise2d;
use roguelike::town::Building;

fn map_of(w: i32, h: i32, floor: Floor) -> GameMap {
    let row = vec![Voxel { floor: Some(floor), props: None }; w as usize];
    GameMap {
        width: w,
        height: h,
        voxels: vec![row; h as usize],
        fire_turns: Vec::new(),
        sand_cloud_turns: Vec::new(),
        sand_cloud_previous_floor: Vec::new(),
        faction_anchors: Vec::new(),
        occupancy: vec![vec![false; h as usize]; w as usize],
    }
}

fn varied_map(w: i32, h: i32, seed: u64) -> GameMap {
    let mut map = map_of(w, h, Floor::Sand);
    for y in 0..h {
        for x in 0..w {
            let v = &mut map.voxels[y as usize][x as usize];
            match noise2d(x, y, seed) % 11 {
                0 => v.floor = Some(Floor::WoodPlanks),
                1 => v.floor = Some(Floor::StoneFloor),
                2 => v.props = Some(Props::Barrel),
                3 => v.floor = Some(Floor::ShallowWater),
                4 => v.floor = Some(Floor::Beach),
                5 => v.props = Some(Props::Wall),
                _ => {}
            }
        }
    }
    map
}

/// The alley pass written as a direct loop over pairs.
fn reference_alleys(map: &mut GameMap, buildings: &[Building]) {
    let mut paint = |map: &mut GameMap, x: i32, y: i32| {
        if x < 0 || y < 0 || x >= map.width || y >= map.height {
            return;
        }
        let v = &mut map.voxels[y as usize][x as usize];
        if v.props.is_none() && !matches!(v.floor, Some(Floor::WoodPlanks) | Some(Floor::StoneFloor)) {
            v.floor = Some(Floor::Alley);
        }
    };
    for (i, a) in buildings.iter().enumerate() {
        for b in &buildings[i + 1..] {
            if a.y < b.y + b.h && b.y < a.y + a.h {
                for (lo, gap) in [(a.x + a.w, b.x - (a.x + a.w)), (b.x + b.w, a.x - (b.x + b.w))] {
                    if (1..=6).contains(&gap) {
                        for y in a.y.max(b.y)..(a.y + a.h).min(b.y + b.h) {
                            for gx in 0..gap {
                                paint(map, lo + gx, y);
                            }
                        }
                    }
                }
            }
            if a.x < b.x + b.w && b.x < a.x + a.w {
                for (lo, gap) in [(a.y + a.h, b.y - (a.y + a.h)), (b.y + b.h, a.y - (b.y + b.h))] {
                    if (1..=6).contains(&gap) {
                        for x in a.x.max(b.x)..(a.x + a.w).min(b.x + b.w) {
                            for gy in 0..gap {
                                paint(map, x, lo + gy);
                            }
                        }
                    }
                }
            }
        }
    }
}

#[test]
fn alleys_fill_narrow_gaps_between_buildings() {
    let mut map = map_of(40, 30, Floor::Sand);
    let a = Building { x: 2, y: 2, w: 6, h: 5, kind: 0 };
    let b = Building { x: 11, y: 4, w: 6, h: 5, kind: 0 };
    let far = Building { x: 30, y: 2, w: 5, h: 5, kind: 0 };
    place_alleys(&mut map, &[a, b, far]);
    for y in 0..30usize {
        for x in 0..40usize {
            let alley = (8..11).contains(&x) && (4..7).contains(&y);
            let expected = if alley { Some(Floor::Alley) } else { Some(Floor::Sand) };
            assert_eq!(map.voxels[y][x].floor, expected, "({x},{y})");
        }
    }
}

#[test]
fn alleys_match_the_alley_pass() {
    for seed in [1u64, 2, 3] {
        let mut buildings = Vec::new();
        for k in 0..14i32 {
            let h = noise2d(k, 0, seed);
            buildings.push(Building {
                x: (h % 50) as i32,
                y: ((h >> 8) % 40) as i32,
                w: 3 + ((h >> 16) % 6) as i32,
                h: 3 + ((h >> 20) % 6) as i32,
                kind: 0,
            });
        }
        let mut expected = varied_map(60, 50, seed);
        reference_alleys(&mut expected, &buildings);
        let mut map = varied_map(60, 50, seed);
        place_alleys(&mut map, &buildings);
        assert_eq!(map.voxels, expected.voxels, "seed {seed}");
    }
}

#[test]
fn clearing_spares_the_border_and_dries_the_ground() {
    let mut map = varied_map(20, 20, 9);
    let before = map.voxels.clone();
    clear_around(&mut map, GridVec::new(2, 3), 3);
    for y in 0..20i32 {
        for x in 0..20i32 {
            let (dx, dy) = (x - 2, y - 3);
            let inside = dx * dx + dy * dy <= 9 && x != 0 && y != 0 && x != 19 && y != 19;
            let old = before[y as usize][x as usize];
            let expected = if inside {
                Voxel {
                    floor: match old.floor {
                        Some(Floor::ShallowWater) | Some(Floor::DeepWater) | Some(Floor::Beach) | Some(Floor::BeachSand) => {
                            Some(Floor::Dirt)
                        }
                        f => f,
                    },
                    props: None,
                }
            } else {
                old
            };
            assert_eq!(map.voxels[y as usize][x as usize], expected, "({x},{y})");
        }
    }
}

#[test]
fn water_keeps_no_props() {
    let mut map = varied_map(30, 30, 4);
    map.voxels[5][5] = Voxel { floor: Some(Floor::DeepWater), props: Some(Props::Crate) };
    map.voxels[6][5] = Voxel { floor: Some(Floor::Sand), props: Some(Props::Crate) };
    clear_water_props(&mut map);
    assert_eq!(map.voxels[5][5], Voxel { floor: Some(Floor::DeepWater), props: None });
    assert_eq!(map.voxels[6][5].props, Some(Props::Crate));
    for row in &map.voxels {
        for v in row {
            if matches!(v.floor, Some(Floor::ShallowWater) | Some(Floor::DeepWater) | Some(Floor::Beach) | Some(Floor::BeachSand)) {
                assert_eq!(v.props, None);
            }
        }
    }
}

#[test]
fn the_start_area_falls_back_to_the_centre() {
    assert_eq!(spawn_clearing_center(GridVec::new(5, 5), 20, 10), GridVec::new(5, 5));
    assert_eq!(spawn_clearing_center(GridVec::new(250, 5), 400, 280), GridVec::new(250, 5));
    assert_eq!(spawn_clearing_center(GridVec::new(25, 5), 20, 10), GridVec::new(10, 5));
    assert_eq!(spawn_clearing_center(GridVec::new(-1, 5), 21, 11), GridVec::new(10, 5));
}

#[test]
fn house_exterior_is_the_first_open_tile_beside_a_wall() {
    let mut map = map_of(30, 30, Floor::Sand);
    // A wall segment; the tile left of it is grass with a barrel, the one
    // above is water, the one right of it is open sand.
    map.voxels[10][12] = Voxel { floor: Some(Floor::Sand), props: Some(Props::Wall) };
    map.voxels[10][11] = Voxel { floor: Some(Floor::Grass), props: Some(Props::Barrel) };
    map.voxels[9][12] = Voxel { floor: Some(Floor::ShallowWater), props: None };
    assert_eq!(find_house_exterior(&map, GridVec::new(15, 15)), Some(GridVec::new(13, 10)));
    // Out of the 40-tile window there is nothing to find.
    assert_eq!(find_house_exterior(&map, GridVec::new(100, 100)), None);
    assert_eq!(find_house_exterior(&map_of(30, 30, Floor::Sand), GridVec::new(15, 15)), None);
}
