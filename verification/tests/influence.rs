use roguelike::components::{EntityId, Faction};
use roguelike::gamemap::{GameMap, Voxel};
use roguelike::graphics::{Floor, Props};
use roguelike::grid_vec::GridVec;
use roguelike::influence::{has_clear_line_of_sight, has_friendly_in_path, tile_cost, tile_cost_for_ai};
use roguelike::resources::SpatialIndex;

fn map_of(w: i32, h: i32, floor: Floor) -> GameMap {
    let row = vec![Voxel { floor: Some(floor), props: None }; w as usize];
    GameMap {
        width: w,
        height: h,
        voxels: vec![row; h as usize],
        fire_turns: Vec::new(),
        sand_cloud_turns: Vec::new(),
        sand_cloud_previous_floor: Vec::new(),
        faction_anchors: Vec::new(),
        occupancy: vec![vec![false; h as usize]; w as usize],
    }
}

const BLOCKING: [Props; 4] = [Props::Wall, Props::StoneWall, Props::Tree, Props::Cactus];

fn reference_cost(pos: GridVec, map: &GameMap) -> Option<i32> {
    if !map.is_passable(&pos, &BLOCKING) {
        return None;
    }
    let mut c = 10;
    match map.voxels[pos.y as usize][pos.x as usize].floor {
        Some(Floor::Fire) => c += 50,
        Some(Floor::SandCloud) => c += 20,
        Some(Floor::ShallowWater) => c += 8,
        Some(Floor::DeepWater) => c += 15,
        _ => {}
    }
    let mut walls = 0;
    let (mut fire, mut cactus) = (false, false);
    for n in pos.all_neighbors() {
        if n.x < 0 || n.y < 0 || n.x >= map.width || n.y >= map.height {
            continue;
        }
        let v = map.voxels[n.y as usize][n.x as usize];
        if v.props == Some(Props::Cactus) {
            cactus = true;
        }
        if v.floor == Some(Floor::Fire) {
            fire = true;
        }
        if v.props.is_some_and(|p| BLOCKING.contains(&p)) {
            walls += 1;
        }
    }
    if fire {
        c += 25;
    }
    if cactus {
        c += 30;
    }
    if walls > 0 {
        c -= (walls * 2).min(c - 1);
    } else {
        c += 3;
    }
    Some(c)
}

fn mixed_map() -> GameMap {
    let mut map = map_of(20, 20, Floor::Sand);
    for y in 0..20usize {
        for x in 0..20usize {
            let k = (x * 7 + y * 13) % 17;
            map.voxels[y][x] = match k {
                0 => Voxel { floor: Some(Floor::Fire), props: None },
                1 => Voxel { floor: Some(Floor::Sand), props: Some(Props::Wall) },
                2 => Voxel { floor: Some(Floor::Sand), props: Some(Props::Cactus) },
                3 => Voxel { floor: Some(Floor::SandCloud), props: None },
                4 => Voxel { floor: Some(Floor::ShallowWater), props: None },
                5 => Voxel { floor: Some(Floor::Dirt), props: Some(Props::Barrel) },
                6 => Voxel { floor: Some(Floor::Dirt), props: Some(Props::StoneWall) },
                _ => Voxel { floor: Some(Floor::Dirt), props: None },
            };
        }
    }
    map
}

#[test]
fn tile_cost_matches_reference() {
    let map = mixed_map();
    for y in -1..21 {
        for x in -1..21 {
            let p = GridVec::new(x, y);
            assert_eq!(tile_cost(p, &map, &BLOCKING), reference_cost(p, &map), "at {x},{y}");
        }
    }
}

#[test]
fn tile_cost_values() {
    let mut map = map_of(5, 5, Floor::Dirt);
    // Open ground: base plus exposure.
    assert_eq!(tile_cost(GridVec::new(2, 2), &map, &BLOCKING), Some(13));
    // Three walls of cover: 10 - 6.
    map.voxels[1][1].props = Some(Props::Wall);
    map.voxels[1][2].props = Some(Props::Wall);
    map.voxels[1][3].props = Some(Props::Wall);
    assert_eq!(tile_cost(GridVec::new(2, 2), &map, &BLOCKING), Some(4));
    // Eight walls: capped at a cost of 1.
    for (dx, dy) in [(-1, 0), (1, 0), (-1, 1), (0, 1), (1, 1)] {
        map.voxels[(2 + dy) as usize][(2 + dx) as usize].props = Some(Props::Wall);
    }
    assert_eq!(tile_cost(GridVec::new(2, 2), &map, &BLOCKING), Some(1));
    // A burning tile next to a cactus, with no cover.
    let mut hot = map_of(5, 5, Floor::Dirt);
    hot.voxels[2][2].floor = Some(Floor::Fire);
    hot.voxels[2][3].props = Some(Props::Bush);
    hot.voxels[1][1].floor = Some(Floor::Fire);
    assert_eq!(tile_cost(GridVec::new(2, 2), &hot, &BLOCKING), Some(10 + 50 + 25 + 3));
    hot.voxels[3][3].props = Some(Props::Cactus);
    // The cactus is cover as well as a hazard.
    assert_eq!(tile_cost(GridVec::new(2, 2), &hot, &BLOCKING), Some(10 + 50 + 25 + 30 - 2));
    // Water and walls are impassable; so is the outside of the map.
    hot.voxels[0][0].floor = Some(Floor::DeepWater);
    assert_eq!(tile_cost(GridVec::new(0, 0), &hot, &BLOCKING), None);
    assert_eq!(tile_cost(GridVec::new(3, 3), &hot, &BLOCKING), None);
    assert_eq!(tile_cost(GridVec::new(5, 0), &hot, &BLOCKING), None);
}

#[test]
fn tile_cost_for_ai_blocks_on_other_entities() {
    let map = map_of(5, 5, Floor::Dirt);
    let mut spatial = SpatialIndex { cells: Vec::new() };
    let p = GridVec::new(2, 2);
    spatial.add_entity(p, EntityId(7));
    let blockers = [EntityId(7), EntityId(8)];
    assert_eq!(tile_cost_for_ai(p, EntityId(7), &map, &spatial, &blockers, &BLOCKING), Some(13));
    assert_eq!(tile_cost_for_ai(p, EntityId(1), &map, &spatial, &blockers, &BLOCKING), None);
    assert_eq!(tile_cost_for_ai(p, EntityId(1), &map, &spatial, &[EntityId(8)], &BLOCKING), Some(13));
}

fn reference_sight(o: GridVec, t: GridVec, map: &GameMap, clouds: &[GridVec], opaque: &[Props]) -> bool {
    let path = o.bresenham_line(t);
    for &tile in &path[1..] {
        if tile == t {
            return true;
        }
        if clouds.contains(&tile) {
            return false;
        }
        if tile.x < 0 || tile.y < 0 || tile.x >= map.width || tile.y >= map.height {
            return false;
        }
        let v = map.voxels[tile.y as usize][tile.x as usize];
        if v.floor == Some(Floor::SandCloud) || v.props.is_some_and(|p| opaque.contains(&p)) {
            return false;
        }
    }
    true
}

#[test]
fn line_of_sight_matches_reference() {
    let map = mixed_map();
    let opaque = [Props::Wall, Props::StoneWall];
    let clouds = [GridVec::new(9, 9), GridVec::new(4, 15)];
    for (ox, oy) in [(0, 0), (10, 10), (19, 3), (5, 17)] {
        for ty in -2..22 {
            for tx in -2..22 {
                let (o, t) = (GridVec::new(ox, oy), GridVec::new(tx, ty));
                assert_eq!(
                    has_clear_line_of_sight(o, t, &map, &clouds, &opaque),
                    reference_sight(o, t, &map, &clouds, &opaque),
                    "{o:?} -> {t:?}"
                );
            }
        }
    }
}

#[test]
fn line_of_sight_ignores_the_ends() {
    let mut map = map_of(10, 3, Floor::Dirt);
    map.voxels[1][0].props = Some(Props::Wall);
    map.voxels[1][9].props = Some(Props::Wall);
    let opaque = [Props::Wall];
    assert!(has_clear_line_of_sight(GridVec::new(0, 1), GridVec::new(9, 1), &map, &[], &opaque));
    map.voxels[1][5].props = Some(Props::Wall);
    assert!(!has_clear_line_of_sight(GridVec::new(0, 1), GridVec::new(9, 1), &map, &[], &opaque));
    assert!(!has_clear_line_of_sight(GridVec::new(0, 0), GridVec::new(9, 0), &map, &[GridVec::new(3, 0)], &opaque));
    assert!(has_clear_line_of_sight(GridVec::new(4, 1), GridVec::new(4, 1), &map, &[], &opaque));
}

#[test]
fn friendly_in_path() {
    let mut spatial = SpatialIndex { cells: Vec::new() };
    spatial.add_entity(GridVec::new(3, 0), EntityId(2));
    spatial.add_entity(GridVec::new(5, 0), EntityId(3));
    spatial.add_entity(GridVec::new(8, 0), EntityId(4));
    let factions = [(EntityId(1), Faction::Outlaws), (EntityId(2), Faction::Lawmen), (EntityId(3), Faction::Outlaws)];
    let (o, t) = (GridVec::new(0, 0), GridVec::new(8, 0));
    assert!(has_friendly_in_path(o, t, Some(Faction::Outlaws), EntityId(1), &spatial, &factions));
    assert!(has_friendly_in_path(o, t, Some(Faction::Lawmen), EntityId(1), &spatial, &factions));
    assert!(!has_friendly_in_path(o, t, Some(Faction::Apache), EntityId(1), &spatial, &factions));
    assert!(!has_friendly_in_path(o, t, None, EntityId(1), &spatial, &factions));
    // The entity at the target does not count, nor does the shooter.
    assert!(!has_friendly_in_path(o, GridVec::new(5, 0), Some(Faction::Outlaws), EntityId(1), &spatial, &factions));
    assert!(!has_friendly_in_path(GridVec::new(5, 0), GridVec::new(9, 0), Some(Faction::Outlaws), EntityId(3), &spatial, &factions));
}
