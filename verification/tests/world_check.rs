use roguelike::world_check::{attempt_seed, next_attempt, MAX_WORLD_RETRIES};
use roguelike::gamemap::{GameMap, Voxel};
use roguelike::graphics::{Floor, Props};
use roguelike::town::Building;
use roguelike::world_check::{check_connectivity, road_reachability, verify_world, WorldDefect};

fn map_of(w: i32, h: i32, floor: Floor) -> GameMap {
    let row = vec![Voxel { floor: Some(floor), props: None }; w as usize];
    GameMap {
        width: w,
        height: h,
        voxels: vec![row; h as usize],
        fire_turns: Vec::new(),
        sand_cloud_turns: Vec::new(),
        sand_cloud_previous_floor: Vec::new(),
        faction_anchors: Vec::new(),
        occupancy: vec![vec![false; h as usize]; w as usize],
    }
}

fn set(map: &mut GameMap, x: i32, y: i32, v: Voxel) {
    map.voxels[y as usize][x as usize] = v;
}

fn house(x: i32, y: i32) -> Building {
    Building { x, y, w: 6, h: 5, kind: 0 }
}

const BLOCKING: [Props; 3] = [Props::Wall, Props::StoneWall, Props::Tree];

#[test]
fn flood_reaches_only_through_passable_tiles() {
    // A 5x3 map of sand with one road tile at the left; a tree wall at x = 2.
    let mut map = map_of(5, 3, Floor::Sand);
    set(&mut map, 0, 1, Voxel { floor: Some(Floor::DirtRoad), props: None });
    for y in 0..3 {
        set(&mut map, 2, y, Voxel { floor: Some(Floor::Sand), props: Some(Props::Tree) });
    }
    let r = road_reachability(&map, 5, 3, &BLOCKING);
    assert_eq!(r.len(), 15);
    for y in 0..3 {
        for x in 0..5 {
            let expected = x < 2;
            assert_eq!(r[(y * 5 + x) as usize], expected, "tile ({x},{y})");
        }
    }
}

#[test]
fn flood_without_roads_reaches_nothing() {
    let map = map_of(4, 4, Floor::Sand);
    let r = road_reachability(&map, 4, 4, &BLOCKING);
    assert!(r.iter().all(|&b| !b));
}

#[test]
fn verify_world_skips_small_maps() {
    let map = map_of(40, 40, Floor::Sand);
    let b = [house(5, 5), house(6, 6)];
    assert_eq!(verify_world(&map, &b, &[20], &[], 40, 40, &BLOCKING), Ok(()));
}

#[test]
fn verify_world_accepts_a_sound_town() {
    let map = map_of(60, 60, Floor::Dirt);
    let b = [house(5, 5), house(20, 5)];
    assert_eq!(verify_world(&map, &b, &[30, 50], &[10, 40], 60, 60, &BLOCKING), Ok(()));
}

#[test]
fn verify_world_reports_crowded_buildings() {
    let map = map_of(60, 60, Floor::Dirt);
    // One tile apart horizontally: the padded footprint touches the other.
    let b = [house(5, 5), house(11, 5)];
    assert_eq!(
        verify_world(&map, &b, &[30], &[], 60, 60, &BLOCKING),
        Err(WorldDefect::Crowded { first: b[0], second: b[1] })
    );
    // Two tiles apart is fine.
    let b2 = [house(5, 5), house(12, 5)];
    assert_eq!(verify_world(&map, &b2, &[30], &[], 60, 60, &BLOCKING), Ok(()));
}

#[test]
fn verify_world_reports_a_building_on_the_river() {
    let mut map = map_of(60, 60, Floor::Dirt);
    set(&mut map, 7, 6, Voxel { floor: Some(Floor::ShallowWater), props: None });
    let b = [house(5, 5)];
    assert_eq!(
        verify_world(&map, &b, &[30], &[], 60, 60, &BLOCKING),
        Err(WorldDefect::OnRiver { building: b[0], x: 7, y: 6 })
    );
}

#[test]
fn verify_world_reports_an_unreachable_entrance() {
    // No road anywhere: the flood reaches nothing.
    let map = map_of(60, 60, Floor::Sand);
    let b = [house(5, 5)];
    assert_eq!(
        verify_world(&map, &b, &[30], &[], 60, 60, &BLOCKING),
        Err(WorldDefect::UnreachableEntrance { building: b[0], x: 8, y: 10 })
    );
}

#[test]
fn verify_world_reports_separated_avenues() {
    let mut map = map_of(60, 60, Floor::Sand);
    // Road along row 30; a full row of trees at y = 40 cuts the map in two
    // (sand is passable but not a flood start).
    for x in 0..60 {
        set(&mut map, x, 30, Voxel { floor: Some(Floor::DirtRoad), props: None });
        set(&mut map, x, 40, Voxel { floor: Some(Floor::Sand), props: Some(Props::Tree) });
    }
    let b = [house(5, 5)];
    assert_eq!(
        verify_world(&map, &b, &[30, 50], &[], 60, 60, &BLOCKING),
        Err(WorldDefect::AvenuesApart { first_y: 30, last_y: 50 })
    );
}

#[test]
fn verify_world_reports_a_cut_off_cross_street() {
    let mut map = map_of(60, 60, Floor::Sand);
    // Road only on the left half of row 30; a tree column at x = 45
    // separates the crossing at x = 50 from it (sand is passable but not
    // a flood start).
    for x in 0..30 {
        set(&mut map, x, 30, Voxel { floor: Some(Floor::DirtRoad), props: None });
    }
    for y in 0..60 {
        set(&mut map, 45, y, Voxel { floor: Some(Floor::Sand), props: Some(Props::Tree) });
    }
    let b = [house(5, 22)];
    assert_eq!(
        verify_world(&map, &b, &[30], &[50], 60, 60, &BLOCKING),
        Err(WorldDefect::CrossStreetCut { cross_x: 50, avenue_y: 30 })
    );
}

#[test]
fn verify_world_reports_a_building_on_a_road() {
    let mut map = map_of(60, 60, Floor::Dirt);
    set(&mut map, 6, 6, Voxel { floor: Some(Floor::DirtRoad), props: None });
    let b = [house(5, 5)];
    assert_eq!(
        verify_world(&map, &b, &[30], &[], 60, 60, &BLOCKING),
        Err(WorldDefect::OnExcludedGround { building: b[0], x: 6, y: 6 })
    );
}

#[test]
fn verify_world_reports_a_prop_in_the_river() {
    let mut map = map_of(60, 60, Floor::Dirt);
    set(&mut map, 40, 40, Voxel { floor: Some(Floor::DeepWater), props: Some(Props::Barrel) });
    // A wall in water is allowed.
    set(&mut map, 41, 40, Voxel { floor: Some(Floor::DeepWater), props: Some(Props::Wall) });
    let b = [house(5, 5)];
    assert_eq!(
        verify_world(&map, &b, &[30], &[], 60, 60, &BLOCKING),
        Err(WorldDefect::PropInWater { x: 40, y: 40 })
    );
}

#[test]
fn connectivity_repair_cuts_a_gap_to_the_nearest_road() {
    let mut map = map_of(40, 40, Floor::Sand);
    // A road row at y = 30, a tree hedge across y = 27 and a stretch of
    // river across y = 25 between the house door (8, 20) and the road.
    for x in 0..40 {
        set(&mut map, x, 30, Voxel { floor: Some(Floor::DirtRoad), props: None });
        set(&mut map, x, 27, Voxel { floor: Some(Floor::Sand), props: Some(Props::Tree) });
        set(&mut map, x, 25, Voxel { floor: Some(Floor::ShallowWater), props: None });
    }
    // A wall beside the gap stays.
    set(&mut map, 1, 26, Voxel { floor: Some(Floor::Sand), props: Some(Props::Wall) });
    let before = map.voxels.clone();
    let b = [Building { x: 5, y: 15, w: 6, h: 5, kind: 0 }];
    check_connectivity(&mut map, &b, &[30], &[], 40, 40, &BLOCKING);
    // Rows 28 and below are reached; the first reached tile around the
    // door, searching ring by ring and row by row, is (0, 28), eight
    // tiles away: the gap follows the diagonal (8 - k, 20 + k).
    for y in 0..40i32 {
        for x in 0..40i32 {
            let near = (0..=8).any(|k| (x - (8 - k)).abs() <= 1 && (y - (20 + k)).abs() <= 1);
            let old = before[y as usize][x as usize];
            let expected = if near {
                Voxel {
                    floor: match old.floor {
                        Some(Floor::ShallowWater) | Some(Floor::DeepWater) => Some(Floor::Bridge),
                        f => f,
                    },
                    props: match old.props {
                        Some(Props::Tree) => None,
                        p => p,
                    },
                }
            } else {
                old
            };
            assert_eq!(map.voxels[y as usize][x as usize], expected, "tile ({x},{y})");
        }
    }
    assert_eq!(map.voxels[26][1].props, Some(Props::Wall));
    let r = road_reachability(&map, 40, 40, &BLOCKING);
    assert!(r[(20 * 40 + 8) as usize]);
}

#[test]
fn connectivity_repair_leaves_a_reachable_town_alone() {
    let mut map = map_of(40, 40, Floor::Dirt);
    set(&mut map, 3, 3, Voxel { floor: Some(Floor::DeepWater), props: None });
    let before = map.voxels.clone();
    let b = [Building { x: 5, y: 15, w: 6, h: 5, kind: 0 }];
    check_connectivity(&mut map, &b, &[30], &[], 40, 40, &BLOCKING);
    assert_eq!(map.voxels, before);
}

#[test]
fn retry_seeds_and_budget() {
    assert_eq!(attempt_seed(42, 0), 42);
    assert_eq!(attempt_seed(42, 3), 42 + 3 * 7919);
    assert_eq!(attempt_seed(u64::MAX, 1), 7918);
    assert_eq!(next_attempt(0, true), None);
    assert_eq!(next_attempt(0, false), Some(1));
    assert_eq!(next_attempt(MAX_WORLD_RETRIES, false), None);
}
