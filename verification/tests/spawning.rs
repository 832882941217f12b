use roguelike::components::Faction;
use roguelike::gamemap::{GameMap, Voxel};
use roguelike::graphics::{Floor, Props};
use roguelike::grid_vec::GridVec;
use roguelike::noise::noise2d;
use roguelike::spawning::plan_monster_spawns;

fn map_of(w: i32, h: i32, floor: Floor) -> GameMap {
    let row = vec![Voxel { floor: Some(floor), props: None }; w as usize];
    GameMap {
        width: w,
        height: h,
        voxels: vec![row; h as usize],
        fire_turns: Vec::new(),
        sand_cloud_turns: Vec::new(),
        sand_cloud_previous_floor: Vec::new(),
        faction_anchors: Vec::new(),
        occupancy: vec![vec![false; h as usize]; w as usize],
    }
}

fn fraction_below(h: u32, num: u64, den: u64) -> bool {
    (h as u64) * den <= num * 0xFFFF_FFFF
}

fn spots_all(p: GridVec) -> Vec<Vec<GridVec>> {
    vec![vec![p; 3]; 5]
}

#[test]
fn bank_groups_sit_on_either_side_of_the_bridge() {
    let mut map = map_of(80, 60, Floor::Sand);
    for y in 28..32 {
        map.voxels[y][40].floor = Some(Floor::Bridge);
    }
    let spawn = GridVec::new(0, 0);
    let r = plan_monster_spawns(&map, 7, &[Props::Wall], spawn, &spots_all(GridVec::new(-5, -5)));
    let left: Vec<_> = r.iter().filter(|s| s.look == Some(GridVec::new(1, 0))).collect();
    let right: Vec<_> = r.iter().filter(|s| s.look == Some(GridVec::new(-1, 0))).collect();
    assert!(left.len() >= 8 && left.len() <= 11);
    assert!(right.len() >= 8 && right.len() <= 11);
    for (i, s) in left.iter().enumerate() {
        assert!(s.pos.x >= 25 && s.pos.x <= 39);
        assert!(s.pos.y >= 28 - 15 && s.pos.y <= 28 + 15);
        assert_eq!(s.template, if i % 2 == 0 { 2 } else { 3 });
    }
    for s in right.iter() {
        assert!(s.pos.x >= 41 && s.pos.x <= 55);
        assert_eq!(s.template, 0);
    }
    // The left group fills the rows from the top, accepting exactly the
    // tiles whose thinning noise is at most 0.4.
    let gs = 7u64.wrapping_add(54321);
    let mut expect = Vec::new();
    'outer: for dy in -15..=15 {
        for dx in -15..=-1 {
            if expect.len() >= left.len() {
                break 'outer;
            }
            let (x, y) = (40 + dx, 28 + dy);
            if fraction_below(noise2d(x, y, gs.wrapping_add(22222)), 2, 5) {
                expect.push(GridVec::new(x, y));
            }
        }
    }
    let got: Vec<GridVec> = left.iter().map(|s| s.pos).collect();
    assert_eq!(got, expect);
}

#[test]
fn no_npc_near_the_player_spawn() {
    let mut map = map_of(60, 60, Floor::Grass);
    map.faction_anchors.push((GridVec::new(30, 30), Faction::Civilians, "Hotel".to_string()));
    map.faction_anchors.push((GridVec::new(12, 40), Faction::Police, "Office".to_string()));
    let spawn = GridVec::new(30, 30);
    let r = plan_monster_spawns(&map, 3, &[Props::Wall], spawn, &spots_all(GridVec::new(30, 31)));
    for s in &r {
        let dx = s.pos.x - spawn.x;
        let dy = s.pos.y - spawn.y;
        assert!(dx * dx + dy * dy >= 100);
    }
    let deputies: Vec<_> = r.iter().filter(|s| s.template == 4 || s.template == 5).collect();
    assert!(deputies.len() >= 2 && deputies.len() <= 5);
    assert_eq!(deputies[0].template, 4);
    for d in &deputies {
        assert!((d.pos.x - 12).abs() <= 8 && (d.pos.y - 40).abs() <= 8);
    }
}

#[test]
fn stragglers_are_pulled_inside_the_edge() {
    let map = map_of(40, 40, Floor::Dirt);
    let spots = vec![vec![GridVec::new(-100, 500)]; 5];
    let r = plan_monster_spawns(&map, 11, &[], GridVec::new(20, 20), &spots);
    let strays: Vec<_> = r.iter().filter(|s| s.look.is_none()).collect();
    assert_eq!(strays.len(), 5);
    for s in strays {
        assert_eq!(s.pos, GridVec::new(1, 38));
    }
}

#[test]
fn no_spawn_on_water_or_props() {
    let mut map = map_of(50, 50, Floor::ShallowWater);
    map.voxels[10][10].floor = Some(Floor::Sand);
    map.voxels[10][10].props = Some(Props::Barrel);
    let r = plan_monster_spawns(&map, 5, &[], GridVec::new(0, 0), &spots_all(GridVec::new(10, 10)));
    assert!(r.is_empty());
}
