use roguelike::components::Faction;
use roguelike::gamemap::{set_prop, GameMap, Voxel};
use roguelike::graphics::{Floor, Props};
use roguelike::grid_vec::GridVec;
use roguelike::landmarks::{place_grand_saloon, place_mission, place_mission_at, place_town_hall, place_town_plaza};
use roguelike::noise::noise2d;
use roguelike::town::{overlaps_any_building, Building};

fn map_of(w: i32, h: i32, floor: Floor) -> GameMap {
    let row = vec![Voxel { floor: Some(floor), props: None }; w as usize];
    GameMap {
        width: w,
        height: h,
        voxels: vec![row; h as usize],
        fire_turns: Vec::new(),
        sand_cloud_turns: Vec::new(),
        sand_cloud_previous_floor: Vec::new(),
        faction_anchors: Vec::new(),
        occupancy: vec![vec![false; h as usize]; w as usize],
    }
}

fn value_noise(x: i32, y: i32, seed: u64) -> f64 {
    noise2d(x, y, seed) as f64 / u32::MAX as f64
}

/// Sand with a few roads, claimed tiles and stray props.
fn varied_map(w: i32, h: i32, seed: u64) -> GameMap {
    let mut map = map_of(w, h, Floor::Sand);
    for y in 0..h {
        for x in 0..w {
            match noise2d(x, y, seed) % 97 {
                0 => map.voxels[y as usize][x as usize].floor = Some(Floor::DirtRoad),
                1 => map.occupancy[x as usize][y as usize] = true,
                2 => map.voxels[y as usize][x as usize].props = Some(Props::Cactus),
                _ => {}
            }
        }
    }
    map
}

fn site_free(map: &GameMap, bs: &[Building], x: i32, y: i32, w: i32, h: i32) -> bool {
    !overlaps_any_building(x, y, w, h, bs) && !map.has_excluded_tile(x, y, w, h)
}

fn stamp(map: &mut GameMap, x0: i32, y0: i32, w: i32, h: i32, floor: Floor, wall: Option<Props>, doors: &[(i32, i32)]) {
    for y in y0..y0 + h {
        for x in x0..x0 + w {
            if x < 0 || y < 0 || x >= map.width || y >= map.height {
                continue;
            }
            let border = x == x0 || x == x0 + w - 1 || y == y0 || y == y0 + h - 1;
            let props = if border && !doors.contains(&(x, y)) { wall } else { None };
            map.voxels[y as usize][x as usize] = Voxel { floor: Some(floor), props };
        }
    }
}

fn reference_hall(map: &mut GameMap, width: i32, height: i32, seed: u64, bs: &[Building]) {
    if width < 24 || height < 18 {
        return;
    }
    let cx = width / 2 + (value_noise(0, 0, seed.wrapping_add(111222)) * 20.0) as i32 - 10;
    let cy = height / 3;
    let tx = (cx - 9).clamp(2, width - 20);
    let ty = (cy - 6).clamp(2, height - 14);
    if !site_free(map, bs, tx, ty, 18, 12) {
        return;
    }
    stamp(map, tx, ty, 18, 12, Floor::WoodPlanks, Some(Props::Wall), &[(tx + 9, ty + 11), (tx + 9, ty)]);
    for dx in 2..14 {
        set_prop(map, tx + dx, ty + 4, Props::Table);
    }
    for dx in (2..14).step_by(2) {
        set_prop(map, tx + dx, ty + 3, Props::Chair);
        set_prop(map, tx + dx, ty + 5, Props::Chair);
    }
    set_prop(map, tx + 2, ty + 2, Props::Sign);
    set_prop(map, tx + 3, ty + 2, Props::Sign);
    set_prop(map, tx + 1, ty + 1, Props::Barrel);
    set_prop(map, tx + 16, ty + 1, Props::Barrel);
    set_prop(map, tx + 1, ty + 10, Props::Crate);
    set_prop(map, tx + 16, ty + 10, Props::Crate);
    map.mark_occupied(tx, ty, 18, 12);
}

fn reference_saloon(map: &mut GameMap, width: i32, height: i32, seed: u64, bs: &[Building]) {
    if width < 26 || height < 20 {
        return;
    }
    let cx = width / 2 - 20 + (value_noise(1, 1, seed.wrapping_add(333444)) * 40.0) as i32;
    let cy = height * 2 / 3;
    let sx = (cx - 10).clamp(2, width - 22);
    let sy = (cy - 7).clamp(2, height - 16);
    if !site_free(map, bs, sx, sy, 20, 14) {
        return;
    }
    stamp(map, sx, sy, 20, 14, Floor::WoodPlanks, Some(Props::Wall), &[(sx + 10, sy + 13), (sx + 9, sy + 13), (sx, sy + 7)]);
    set_prop(map, sx + 1, sy + 1, Props::Piano);
    for dx in 3..17 {
        set_prop(map, sx + dx, sy + 1, Props::Barrel);
    }
    for row in 0..3 {
        for col in 0..3 {
            let tx = sx + 3 + col * 5;
            let ty = sy + 4 + row * 3;
            if tx + 2 < sx + 19 && ty + 1 < sy + 13 {
                set_prop(map, tx, ty, Props::Table);
                set_prop(map, tx - 1, ty, Props::Chair);
                set_prop(map, tx + 1, ty, Props::Chair);
            }
        }
    }
    set_prop(map, sx + 18, sy + 1, Props::Barrel);
    set_prop(map, sx + 18, sy + 12, Props::Crate);
    map.mark_occupied(sx, sy, 20, 14);
}

fn reference_plaza(map: &mut GameMap, width: i32, height: i32, seed: u64, bs: &[Building]) {
    if width < 36 || height < 32 {
        return;
    }
    let s = seed.wrapping_add(777888);
    let offsets = [(15, 10), (-10, 0), (0, -10), (-25, 25), (25, -25), (-15, -20), (20, 20), (-30, 10)];
    for (i, &(ox, oy)) in offsets.iter().enumerate() {
        let i = i as i32;
        let cx = width / 2 + ox + (value_noise(i * 2 + 5, 5, s) * 10.0) as i32;
        let cy = height / 2 + oy + (value_noise(i * 2 + 6, 6, s) * 10.0) as i32;
        let px = (cx - 8).clamp(2, width - 18);
        let py = (cy - 6).clamp(2, height - 14);
        if !site_free(map, bs, px, py, 16, 12) {
            continue;
        }
        stamp(map, px, py, 16, 12, Floor::Plaza, None, &[]);
        let (ccx, ccy) = (px + 8, py + 6);
        map.voxels[ccy as usize][ccx as usize].props = Some(Props::Rock);
        set_prop(map, ccx - 2, ccy, Props::Bench);
        set_prop(map, ccx + 2, ccy, Props::Bench);
        set_prop(map, ccx, ccy - 2, Props::Bench);
        set_prop(map, ccx, ccy + 2, Props::Bench);
        map.mark_occupied(px, py, 16, 12);
        break;
    }
}

fn reference_mission_at(map: &mut GameMap, mx: i32, my: i32, mw: i32, mh: i32) {
    stamp(
        map,
        mx,
        my,
        mw,
        mh,
        Floor::StoneFloor,
        Some(Props::StoneWall),
        &[(mx + mw / 2, my + mh - 1), (mx + mw / 2 - 1, my + mh - 1), (mx + mw - 1, my + mh / 2), (mx + mw / 2, my)],
    );
    let dx = mx + mw * 2 / 3;
    for y in my + 1..my + mh - 1 {
        if y != my + mh / 2 && y != my + mh / 3 && dx >= 0 && dx < map.width && y >= 0 && y < map.height {
            map.voxels[y as usize][dx as usize].props = Some(Props::StoneWall);
        }
    }
    let court_x = dx + 1;
    let court_w = (mx + mw - 1) - court_x - 1;
    let court_h = mh / 2 - 2;
    for cy in 0..court_h {
        for cx in 0..court_w {
            let (x, y) = (court_x + cx, my + 2 + cy);
            if x >= 0 && y >= 0 && x < map.width && y < map.height {
                map.voxels[y as usize][x as usize] = Voxel { floor: Some(Floor::Plaza), props: None };
            }
        }
    }
    for ty in 0..3 {
        for tx in 0..3 {
            let (x, y) = (mx + 1 + tx, my + 1 + ty);
            if x >= 0 && y >= 0 && x < map.width && y < map.height {
                map.voxels[y as usize][x as usize].floor = Some(Floor::Rooftop);
            }
        }
    }
    let (ix, iy) = (mx + 1, my + 1);
    set_prop(map, ix + 4, iy, Props::Table);
    set_prop(map, ix + 3, iy, Props::Sign);
    set_prop(map, ix + 5, iy, Props::Sign);
    for row in 3..mh - 4 {
        set_prop(map, ix + 2, iy + row, Props::Bench);
        set_prop(map, ix + 6, iy + row, Props::Bench);
    }
    set_prop(map, dx + 2, my + mh / 2 + 2, Props::Barrel);
    set_prop(map, dx + 3, my + mh / 2 + 2, Props::Crate);
    map.faction_anchors.push((GridVec::new(mx + mw / 2, my + mh / 2), Faction::Civilians, "Mission".to_string()));
    map.mark_occupied(mx, my, mw, mh);
}

fn reference_mission(map: &mut GameMap, width: i32, height: i32, seed: u64, bs: &[Building]) {
    if width < 34 || height < 28 {
        return;
    }
    let s = seed.wrapping_add(555666);
    let offsets = [(0, 0), (-15, -15), (15, 15), (-30, 20), (30, -20), (-20, 30), (20, -30), (-35, -10)];
    for (i, &(ox, oy)) in offsets.iter().enumerate() {
        let i = i as i32;
        let cx = width / 2 + ox + (value_noise(i * 2, 2, s) * 10.0) as i32;
        let cy = height / 2 + oy + (value_noise(i * 2 + 1, 3, s) * 10.0) as i32;
        let mx = (cx - 12).clamp(2, width - 26);
        let my = (cy - 9).clamp(2, height - 20);
        if !site_free(map, bs, mx, my, 24, 18) {
            continue;
        }
        reference_mission_at(map, mx, my, 24, 18);
        return;
    }
}

fn blockers() -> Vec<Building> {
    vec![Building { x: 95, y: 60, w: 10, h: 8, kind: 0 }, Building { x: 60, y: 110, w: 12, h: 9, kind: 1 }]
}

fn same(a: &GameMap, b: &GameMap) -> bool {
    a.voxels == b.voxels && a.occupancy == b.occupancy && a.faction_anchors == b.faction_anchors
}

#[test]
fn landmarks_match_their_passes() {
    let mut changed = 0;
    for seed in [0u64, 5, 42, 777] {
        for (w, h) in [(200, 160), (120, 90), (40, 30)] {
            let bs = blockers();
            let mut a = varied_map(w, h, seed);
            let mut b = varied_map(w, h, seed);
            place_town_hall(&mut a, w, h, seed, &bs);
            reference_hall(&mut b, w, h, seed, &bs);
            place_grand_saloon(&mut a, w, h, seed, &bs);
            reference_saloon(&mut b, w, h, seed, &bs);
            place_town_plaza(&mut a, w, h, seed, &bs);
            reference_plaza(&mut b, w, h, seed, &bs);
            place_mission(&mut a, w, h, seed, &bs);
            reference_mission(&mut b, w, h, seed, &bs);
            assert!(same(&a, &b), "seed {seed} size {w}x{h}");
            if a.voxels != varied_map(w, h, seed).voxels {
                changed += 1;
            }
        }
    }
    assert!(changed >= 4);
}

#[test]
fn the_mission_is_the_civilians_anchor() {
    let mut map = map_of(60, 60, Floor::Sand);
    place_mission_at(&mut map, 10, 10, 24, 18);
    assert_eq!(map.faction_anchors.len(), 1);
    assert_eq!(map.faction_anchors[0].0, GridVec::new(22, 19));
    assert_eq!(map.faction_anchors[0].1, Faction::Civilians);
    assert_eq!(map.faction_anchors[0].2, "Mission");
    assert_eq!(map.voxels[10][10].props, Some(Props::StoneWall));
    assert_eq!(map.voxels[27][22].props, None);
    assert_eq!(map.voxels[11][11].floor, Some(Floor::Rooftop));
    assert!(map.occupancy[10][10] && map.occupancy[33][27] && !map.occupancy[34][27]);
}

#[test]
fn a_blocked_site_leaves_the_map_alone() {
    // Roads everywhere: every site has an excluded tile.
    let mut map = map_of(200, 160, Floor::DirtRoad);
    let before = map.voxels.clone();
    place_town_hall(&mut map, 200, 160, 1, &[]);
    place_grand_saloon(&mut map, 200, 160, 1, &[]);
    place_town_plaza(&mut map, 200, 160, 1, &[]);
    place_mission(&mut map, 200, 160, 1, &[]);
    assert_eq!(map.voxels, before);
    assert!(map.faction_anchors.is_empty());
}

#[test]
fn faction_anchors_come_from_the_first_building_of_each_kind() {
    let mut map = roguelike::gamemap::GameMap {
        width: 100,
        height: 80,
        voxels: vec![vec![roguelike::gamemap::Voxel { floor: Some(roguelike::graphics::Floor::Sand), props: None }; 100]; 80],
        fire_turns: Vec::new(),
        sand_cloud_turns: Vec::new(),
        sand_cloud_previous_floor: Vec::new(),
        faction_anchors: Vec::new(),
        occupancy: vec![vec![false; 80]; 100],
    };
    let b = |x: i32, y: i32, kind: u32| roguelike::town::Building { x, y, w: 10, h: 8, kind };
    let buildings = vec![b(40, 30, 1), b(60, 30, 1), b(45, 38, 0), b(2, 2, 0), b(80, 70, 0), b(20, 50, 4), b(30, 10, 5)];
    roguelike::landmarks::assign_faction_anchors(&mut map, &buildings);
    let got: Vec<(i32, i32, roguelike::components::Faction, String)> =
        map.faction_anchors.iter().map(|(p, f, n)| (p.x, p.y, *f, n.clone())).collect();
    assert_eq!(
        got,
        vec![
            (45, 34, roguelike::components::Faction::Outlaws, "Cantina".to_string()),
            (7, 6, roguelike::components::Faction::Apache, "Hacienda".to_string()),
            (25, 54, roguelike::components::Faction::Police, "Marshal's Office".to_string()),
        ]
    );
}
