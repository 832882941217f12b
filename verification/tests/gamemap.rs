use roguelike::gamemap::{set_prop, tint_enemy_sight, validate_building_walls, place_building, GameMap, Voxel, Watcher};
use roguelike::components::Faction;
use roguelike::graphics::{Floor, Props, RgbColor};
use roguelike::grid_vec::GridVec;
use roguelike::town::Building;

/// A `w` by `h` map of sand with nothing on it and nothing claimed.
fn blank_map(w: i32, h: i32) -> GameMap {
    let row = vec![Voxel { floor: Some(Floor::Sand), props: None }; w as usize];
    GameMap {
        width: w,
        height: h,
        voxels: vec![row; h as usize],
        fire_turns: Vec::new(),
        sand_cloud_turns: Vec::new(),
        sand_cloud_previous_floor: Vec::new(),
        faction_anchors: Vec::new(),
        occupancy: vec![vec![false; h as usize]; w as usize],
    }
}

#[test]
fn props_is_wall_helper() {
    assert!(Props::Wall.is_wall());
    assert!(!Props::Table.is_wall());
    assert!(!Props::Barrel.is_wall());
}

#[test]
fn stone_wall_is_a_wall() {
    assert!(Props::StoneWall.is_wall());
    assert!(!Props::Fence.is_wall());
}

#[test]
fn get_voxel_at_inside_and_outside() {
    let map = blank_map(5, 4);
    assert_eq!(map.get_voxel_at(&GridVec::new(4, 3)), Some(&Voxel { floor: Some(Floor::Sand), props: None }));
    assert_eq!(map.get_voxel_at(&GridVec::new(5, 0)), None);
    assert_eq!(map.get_voxel_at(&GridVec::new(0, -1)), None);
}

#[test]
fn game_map_get_voxel_at_valid() {
    let map = blank_map(10, 10);
    assert!(map.get_voxel_at(&GridVec::new(5, 5)).is_some());
}

#[test]
fn game_map_get_voxel_at_out_of_bounds() {
    let map = blank_map(10, 10);
    assert!(map.get_voxel_at(&GridVec::new(-1, 0)).is_none());
    assert!(map.get_voxel_at(&GridVec::new(0, -1)).is_none());
    assert!(map.get_voxel_at(&GridVec::new(10, 0)).is_none());
    assert!(map.get_voxel_at(&GridVec::new(0, 10)).is_none());
}

#[test]
fn mark_occupied_clips_to_map() {
    let mut map = blank_map(6, 6);
    map.mark_occupied(4, 4, 5, 5);
    assert!(map.occupancy[4][4]);
    assert!(map.occupancy[5][5]);
    assert!(!map.occupancy[3][4]);
    assert!(map.is_occupied(0, 0, 5, 5));
    assert!(!map.is_occupied(0, 0, 4, 4));
    assert!(!map.is_occupied(-3, -3, 3, 3));
}

#[test]
fn water_and_excluded_tiles() {
    let mut map = blank_map(6, 6);
    map.voxels[2][3].floor = Some(Floor::Beach);
    map.voxels[5][5].floor = Some(Floor::DirtRoad);
    assert!(map.is_water_occupied(3, 2, 1, 1));
    assert!(!map.has_excluded_tile(3, 2, 1, 1));
    assert!(map.has_excluded_tile(0, 0, 6, 6));
    assert!(!map.is_water_occupied(4, 4, 2, 2));
}

#[test]
fn set_prop_respects_walls_roads_and_claims() {
    let mut map = blank_map(4, 4);
    map.voxels[0][0].props = Some(Props::Wall);
    map.voxels[1][1].floor = Some(Floor::Bridge);
    map.occupancy[2][2] = true;
    set_prop(&mut map, 0, 0, Props::Barrel);
    set_prop(&mut map, 1, 1, Props::Barrel);
    set_prop(&mut map, 2, 2, Props::Barrel);
    set_prop(&mut map, 3, 3, Props::Barrel);
    set_prop(&mut map, 9, 9, Props::Barrel);
    assert_eq!(map.voxels[0][0].props, Some(Props::Wall));
    assert_eq!(map.voxels[1][1].props, None);
    assert_eq!(map.voxels[2][2].props, None);
    assert_eq!(map.voxels[3][3].props, Some(Props::Barrel));
}

#[test]
fn place_small_house_builds_walls_floor_and_doors() {
    let mut map = blank_map(12, 12);
    let b = Building { x: 2, y: 2, w: 6, h: 6, kind: 0 };
    place_building(&mut map, &b, 7);
    // Corners of the outline are walls on wooden planks.
    assert_eq!(map.voxels[2][2], Voxel { floor: Some(Floor::WoodPlanks), props: Some(Props::Wall) });
    assert_eq!(map.voxels[7][7], Voxel { floor: Some(Floor::WoodPlanks), props: Some(Props::Wall) });
    // Front and back doors in the middle of the bottom and top edges.
    assert_eq!(map.voxels[2][5].props, None);
    assert_eq!(map.voxels[7][5].props, None);
    // Medium house: partition row with a gap, table and chair in front,
    // bench in the back room.
    assert_eq!(map.voxels[5][3].props, Some(Props::Wall));
    assert_eq!(map.voxels[5][5].props, None);
    assert_eq!(map.voxels[5][6].props, Some(Props::Wall));
    assert_eq!(map.voxels[6][4].props, Some(Props::Table));
    assert_eq!(map.voxels[6][3].props, Some(Props::Chair));
    assert_eq!(map.voxels[3][6].props, Some(Props::Bench));
    // Tiles outside the rectangle are untouched; the rectangle is claimed.
    assert_eq!(map.voxels[1][1], Voxel { floor: Some(Floor::Sand), props: None });
    assert!(map.occupancy[7][7]);
    assert!(!map.occupancy[8][7]);
}

#[test]
fn place_church_uses_stone() {
    let mut map = blank_map(20, 20);
    let b = Building { x: 1, y: 1, w: 7, h: 7, kind: 6 };
    place_building(&mut map, &b, 3);
    assert_eq!(map.voxels[1][1], Voxel { floor: Some(Floor::StoneFloor), props: Some(Props::StoneWall) });
    assert_eq!(map.voxels[4][4].floor, Some(Floor::StoneFloor));
    // Altar table in the middle of the first interior row.
    assert_eq!(map.voxels[2][4].props, Some(Props::Table));
}

#[test]
fn validate_repairs_missing_wall() {
    let mut map = blank_map(10, 10);
    let b = Building { x: 1, y: 1, w: 5, h: 5, kind: 2 };
    validate_building_walls(&mut map, &b);
    assert_eq!(map.voxels[1][1].props, Some(Props::Wall));
    assert_eq!(map.voxels[1][3].props, None);
    assert_eq!(map.voxels[3][3].props, None);
    assert_eq!(map.voxels[3][1].props, Some(Props::Wall));
}

#[test]
fn bridge_closest_to_centre() {
    let mut map = blank_map(10, 5);
    assert_eq!(map.find_bridge_center(), None);
    map.voxels[1][2].floor = Some(Floor::Bridge);
    map.voxels[3][6].floor = Some(Floor::Bridge);
    map.voxels[4][4].floor = Some(Floor::Bridge);
    assert_eq!(map.find_bridge_center(), Some(GridVec::new(6, 3)));
}

#[test]
fn active_chunks_cover_viewport() {
    let map = blank_map(1, 1);
    let chunks = map.active_chunks(&GridVec::new(20, 20), 40, 10);
    // x from 0 to 40 -> chunks 0..=2; y from 15 to 25 -> chunks 0..=1.
    assert_eq!(chunks, vec![(0, 0), (1, 0), (2, 0), (0, 1), (1, 1), (2, 1)]);
    let neg = map.active_chunks(&GridVec::new(-1, 0), 0, 0);
    assert_eq!(neg, vec![(-1, 0)]);
}

#[test]
fn render_packet_dims_unseen_tiles_and_blanks_off_map() {
    let mut map = blank_map(6, 5);
    map.voxels[2][3].props = Some(Props::Barrel);
    let seen = [GridVec::new(3, 2)];
    let grid = map.render_packet_with_fog(&GridVec::new(3, 2), 4, 3, Some(&seen[..]));
    assert_eq!(grid.len(), 3);
    assert!(grid.iter().all(|row| row.len() == 4));
    // The view starts at (1, 1); cell (2, 1) is the tile (3, 2).
    assert_eq!(grid[1][2], Some((Voxel { floor: Some(Floor::Sand), props: Some(Props::Barrel) }, true)));
    assert_eq!(grid[0][0], Some((Voxel { floor: Some(Floor::Sand), props: None }, false)));
    let edge = map.render_packet_with_fog(&GridVec::new(0, 0), 4, 4, None);
    assert_eq!(edge[0][0], None);
    assert_eq!(edge[2][2], Some((Voxel { floor: Some(Floor::Sand), props: None }, true)));
}

#[test]
fn enemy_sight_tints_tiles_both_sides_see() {
    let grey = RgbColor { r: 100, g: 100, b: 100 };
    let mut bg = vec![vec![grey; 3]; 2];
    let player_sees = [GridVec::new(10, 20), GridVec::new(11, 20), GridVec::new(12, 21), GridVec::new(5, 5)];
    let outlaw = Watcher { sees: vec![GridVec::new(11, 20), GridVec::new(12, 21)], faction: Some(Faction::Outlaws), pos: GridVec::new(5, 5) };
    let deer = Watcher { sees: vec![GridVec::new(10, 20)], faction: Some(Faction::Wildlife), pos: GridVec::new(5, 5) };
    let hidden = Watcher { sees: vec![GridVec::new(10, 21)], faction: Some(Faction::Outlaws), pos: GridVec::new(50, 50) };
    tint_enemy_sight(&mut bg, GridVec::new(10, 20), &[outlaw, deer, hidden], Some(&player_sees[..]));
    let red = RgbColor { r: 140, g: 90, b: 90 };
    assert_eq!(bg[0], vec![grey, red, grey]);
    assert_eq!(bg[1], vec![grey, grey, red]);
    let mut bright = vec![vec![RgbColor { r: 250, g: 5, b: 200 }]];
    let w = Watcher { sees: vec![GridVec::new(0, 0)], faction: None, pos: GridVec::new(0, 0) };
    tint_enemy_sight(&mut bright, GridVec::new(0, 0), &[w], Some(&[GridVec::new(0, 0)][..]));
    assert_eq!(bright[0][0], RgbColor { r: 255, g: 0, b: 190 });
}
