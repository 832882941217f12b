use roguelike::components::{AiMemory, AiTarget, AimingStyle, EntityId, Faction};
use roguelike::gamemap::{GameMap, Voxel};
use roguelike::graphics::{Floor, Props};
use roguelike::grid_vec::GridVec;
use roguelike::resources::{DynamicRng, SpatialIndex};
use roguelike::tactics::{
    adjacent_enemy_count, adopt_alert, aim_offset, dodge_step, fire_flee_step, flank_goal, fresh_target, look_around_due,
    look_interval, nearest_alert, neighbor_costs, patrol_heading, patrol_pause, patrol_step, pick_threat,
    proximity_hostile, retained_target,
};

use roguelike::ai::COST_BASE;
use roguelike::ai::FULL_ROTATION_STEPS;
use roguelike::ai::threat_score;
use roguelike::influence::{COST_COVER_PER_WALL, COST_EXPOSED, COST_FIRE, COST_NEAR_CACTUS, COST_NEAR_FIRE, COST_SAND_CLOUD};
use roguelike::tactics::CLOSE_THREAT_RANGE;
use roguelike::tactics::PROXIMITY_OVERRIDE_RANGE;
use roguelike::tactics::TARGET_LOCK_TIMEOUT;
use roguelike::tactics::{BLIND_FIRE_STEPS, MAX_SEARCH_SWEEPS};

fn map_of(w: i32, h: i32, floor: Floor) -> GameMap {
    let row = vec![Voxel { floor: Some(floor), props: None }; w as usize];
    GameMap {
        width: w,
        height: h,
        voxels: vec![row; h as usize],
        fire_turns: Vec::new(),
        sand_cloud_turns: Vec::new(),
        sand_cloud_previous_floor: Vec::new(),
        faction_anchors: Vec::new(),
        occupancy: vec![vec![false; h as usize]; w as usize],
    }
}

fn dirs() -> [GridVec; 8] {
    GridVec::directions_8()
}

fn cheb(a: GridVec, b: GridVec) -> i32 {
    (a.x - b.x).abs().max((a.y - b.y).abs())
}

#[test]
fn threat_picking_prefers_score_then_later() {
    let me = GridVec::new(0, 0);
    let hs = [
        (EntityId(1), GridVec::new(10, 0), 5),
        (EntityId(2), GridVec::new(3, 0), 9),
        (EntityId(3), GridVec::new(20, 0), 9),
        (EntityId(4), GridVec::new(7, 7), 2),
    ];
    // Highest score, the later one on a tie.
    assert_eq!(pick_threat(&hs, me, None), Some((EntityId(3), GridVec::new(20, 0))));
    assert_eq!(pick_threat(&hs, me, Some(8)), Some((EntityId(2), GridVec::new(3, 0))));
    assert_eq!(pick_threat(&hs, me, Some(2)), None);
    // A close threat wins over a distant one.
    assert_eq!(fresh_target(&hs, me), Some((EntityId(2), GridVec::new(3, 0))));
    assert_eq!(proximity_hostile(&hs, me), Some((EntityId(2), GridVec::new(3, 0))));
    let far = [(EntityId(1), GridVec::new(10, 0), 5), (EntityId(5), GridVec::new(30, 0), 6)];
    assert_eq!(fresh_target(&far, me), Some((EntityId(5), GridVec::new(30, 0))));
    assert_eq!(proximity_hostile(&far, me), None);
    assert_eq!(fresh_target(&[], me), None);
}

#[test]
fn target_retention() {
    let me = GridVec::new(0, 0);
    let locked = AiTarget { entity: EntityId(9), last_pos: GridVec::new(30, 0), last_seen: 100, locked: true };
    assert_eq!(retained_target(&locked, true, None, 119, me, 5), Some(GridVec::new(30, 0)));
    assert_eq!(retained_target(&locked, true, Some(GridVec::new(31, 1)), 119, me, 5), Some(GridVec::new(31, 1)));
    assert_eq!(retained_target(&locked, true, None, 120, me, 5), None);
    assert_eq!(retained_target(&locked, false, None, 101, me, 50), None);
    // A turn counter behind the sighting counts as no time passed.
    assert_eq!(retained_target(&locked, true, None, 3, me, 0), Some(GridVec::new(30, 0)));
    let loose = AiTarget { locked: false, ..locked };
    assert_eq!(retained_target(&loose, true, None, 500, me, 30), Some(GridVec::new(30, 0)));
    assert_eq!(retained_target(&loose, true, None, 101, me, 29), None);
}

fn reference_look_interval(p: GridVec) -> u32 {
    let h = (p.x.wrapping_mul(7919) ^ p.y.wrapping_mul(6271)).unsigned_abs();
    20 + (h % 20)
}

#[test]
fn look_around_and_pause_hashes() {
    for x in -50..50 {
        for y in [-100_000, -3, 0, 7, 123_456] {
            let p = GridVec::new(x * 977, y);
            assert_eq!(look_interval(p), reference_look_interval(p));
            for turn in [0u32, 1, 39, 40, 41, 1000, u32::MAX] {
                let due = turn > 0 && turn % reference_look_interval(p) == 0;
                assert_eq!(look_around_due(p, turn), due);
                let pause = ((p.x.wrapping_mul(13) ^ p.y.wrapping_mul(7)).wrapping_add(turn as i32) as u32) % 7 == 0;
                assert_eq!(patrol_pause(p, turn), pause);
            }
        }
    }
}

fn reference_heading(f: Option<Faction>, me: GridVec, home: GridVec, energy: i32) -> GridVec {
    let roam = |a: i32, b: i32| {
        let seed = energy.wrapping_add(me.x.wrapping_mul(a) ^ me.y.wrapping_mul(b));
        dirs()[seed.unsigned_abs() as usize % 8]
    };
    match f {
        Some(Faction::Lawmen) => {
            if cheb(me, home) > 12 {
                (home - me).king_step()
            } else {
                let target = home + (me - home).rotate_45_cw();
                (target - me).king_step()
            }
        }
        Some(Faction::Wildlife) => roam(7, 13),
        Some(Faction::Outlaws) => {
            if cheb(me, home) > 6 {
                (home - me).king_step()
            } else {
                roam(3, 11)
            }
        }
        _ => roam(5, 9),
    }
}

#[test]
fn patrol_heading_matches_reference() {
    let factions = [None, Some(Faction::Lawmen), Some(Faction::Wildlife), Some(Faction::Outlaws), Some(Faction::Apache)];
    for f in factions {
        for x in -15..15 {
            for y in (-15..15).step_by(4) {
                for energy in [-250, 0, 37, 100, i32::MAX] {
                    let me = GridVec::new(40 + x, 40 + y);
                    let home = GridVec::new(40, 40);
                    assert_eq!(patrol_heading(f, me, home, energy), reference_heading(f, me, home, energy));
                }
            }
        }
    }
}

fn reference_patrol_step(heading: GridVec, costs: &[Option<i32>; 8]) -> Option<GridVec> {
    if heading.is_zero() {
        return None;
    }
    let mut best = None;
    let mut best_score = i32::MIN;
    for (i, d) in dirs().iter().enumerate() {
        let Some(tc) = costs[i] else { continue };
        let score = (d.x * heading.x + d.y * heading.y) * 10 - tc;
        if score > best_score {
            best_score = score;
            best = Some(*d);
        }
    }
    best
}

#[test]
fn patrol_step_matches_reference() {
    let samples: Vec<[Option<i32>; 8]> = (0..200u32)
        .map(|k| {
            let mut c = [None; 8];
            for (i, slot) in c.iter_mut().enumerate() {
                let v = (k * 31 + i as u32 * 17) % 23;
                *slot = if v < 4 { None } else { Some(v as i32) };
            }
            c
        })
        .collect();
    for costs in &samples {
        for heading in dirs().iter().copied().chain([GridVec::new(0, 0)]) {
            assert_eq!(patrol_step(heading, costs), reference_patrol_step(heading, costs));
        }
    }
    // Equal scores: the earlier direction wins.
    let flat = [Some(13); 8];
    assert_eq!(patrol_step(GridVec::new(1, 0), &flat), Some(GridVec::new(1, 1)));
}

fn reference_fire_flee(map: &GameMap, me: GridVec, costs: &[Option<i32>; 8]) -> Option<GridVec> {
    let mut sum = GridVec::new(0, 0);
    let mut n = 0;
    for q in me.all_neighbors() {
        if q.x >= 0 && q.y >= 0 && q.x < map.width && q.y < map.height
            && map.voxels[q.y as usize][q.x as usize].floor == Some(Floor::Fire)
        {
            sum = sum + q;
            n += 1;
        }
    }
    if n == 0 {
        return None;
    }
    let avg = GridVec::new(sum.x / n, sum.y / n);
    let away = (me - avg).king_step();
    if away.is_zero() {
        return None;
    }
    let idx = dirs().iter().position(|&d| d == away).unwrap();
    if costs[idx].is_some() {
        return Some(away);
    }
    let mut best = None;
    let mut best_dist = i32::MIN;
    for (i, d) in dirs().iter().enumerate() {
        if costs[i].is_none() {
            continue;
        }
        let dist = cheb(me + *d, avg);
        if dist > best_dist {
            best_dist = dist;
            best = Some(*d);
        }
    }
    best
}

#[test]
fn fire_flee_matches_reference() {
    for k in 0..400u32 {
        let mut map = map_of(5, 5, Floor::Dirt);
        for i in 0..25u32 {
            if (k.wrapping_mul(2654435761) >> (i % 31)) & 3 == 0 {
                map.voxels[(i / 5) as usize][(i % 5) as usize].floor = Some(Floor::Fire);
            }
        }
        let mut costs = [Some(10); 8];
        for (i, slot) in costs.iter_mut().enumerate() {
            if (k >> i) & 1 == 1 {
                *slot = None;
            }
        }
        for me in [GridVec::new(2, 2), GridVec::new(0, 0), GridVec::new(4, 1)] {
            assert_eq!(fire_flee_step(&map, me, &costs), reference_fire_flee(&map, me, &costs), "case {k}");
        }
    }
}

#[test]
fn fleeing_fire_to_the_east() {
    let mut map = map_of(5, 5, Floor::Dirt);
    map.voxels[2][1].floor = Some(Floor::Fire);
    let costs = neighbor_costs(GridVec::new(2, 2), EntityId(1), &map, &SpatialIndex { cells: Vec::new() }, &[], &[Props::Wall]);
    assert_eq!(fire_flee_step(&map, GridVec::new(2, 2), &costs), Some(GridVec::new(1, 0)));
    map.voxels[2][3].props = Some(Props::Wall);
    let costs = neighbor_costs(GridVec::new(2, 2), EntityId(1), &map, &SpatialIndex { cells: Vec::new() }, &[], &[Props::Wall]);
    // The way east is walled: the first furthest tile from the fire instead.
    assert_eq!(fire_flee_step(&map, GridVec::new(2, 2), &costs), Some(GridVec::new(1, 1)));
    let calm = map_of(5, 5, Floor::Dirt);
    assert_eq!(fire_flee_step(&calm, GridVec::new(2, 2), &costs), None);
}

fn reference_dodge(
    rng: &DynamicRng,
    seed: u64,
    e: EntityId,
    me: GridVec,
    ps: &[(GridVec, u32, u32, bool, i32, i32)],
    costs: &[Option<i32>; 8],
) -> Option<GridVec> {
    let roll = rng.roll_bits(seed, e.0 ^ 0xD0D6) as f64 / u32::MAX as f64;
    let danger = ps.iter().any(|p| p.2 == 0 && p.1 > 0 && cheb(me, p.0) <= 2);
    if !(danger && roll < 0.20) {
        return None;
    }
    let mut best = None;
    let mut best_score = (0i32, i32::MAX);
    for (i, d) in dirs().iter().enumerate() {
        let Some(tc) = costs[i] else { continue };
        let t = me + *d;
        let m = ps.iter().filter(|p| p.2 == 0 && p.1 > 0).map(|p| cheb(t, p.0)).min().unwrap_or(i32::MAX);
        let score = (m, -tc);
        if score > best_score {
            best_score = score;
            best = Some(*d);
        }
    }
    best
}

#[test]
fn dodge_matches_reference() {
    let me = GridVec::new(10, 10);
    let particles = vec![
        (GridVec::new(11, 11), 3, 0, false, 0, 0),
        (GridVec::new(8, 10), 0, 0, false, 0, 0),
        (GridVec::new(9, 12), 4, 2, false, 0, 0),
        (GridVec::new(12, 9), 2, 0, true, 1, 1),
    ];
    let mut dodged = 0;
    for tick in 0..300u64 {
        let rng = DynamicRng { tick };
        let mut costs = [Some(10); 8];
        costs[(tick % 8) as usize] = None;
        costs[((tick / 8) % 8) as usize] = Some(3);
        let got = dodge_step(&rng, 77, EntityId(5), me, &particles, &costs);
        assert_eq!(got, reference_dodge(&rng, 77, EntityId(5), me, &particles, &costs), "tick {tick}");
        if got.is_some() {
            dodged += 1;
        }
    }
    assert!(dodged > 0 && dodged < 300);
    let far = vec![(GridVec::new(20, 20), 3, 0, false, 0, 0)];
    for tick in 0..50u64 {
        assert_eq!(dodge_step(&DynamicRng { tick }, 77, EntityId(5), me, &far, &[Some(1); 8]), None);
    }
}

#[test]
fn flank_goal_matches_reference() {
    let mut map = map_of(40, 40, Floor::Dirt);
    map.voxels[20][25].props = Some(Props::Wall);
    let blocking = [Props::Wall];
    for turn in 0..30u32 {
        for x in 0..40 {
            for y in (0..40).step_by(3) {
                let me = GridVec::new(x, y);
                let target = GridVec::new(24, 20);
                let h = (me.x.wrapping_mul(31) ^ me.y.wrapping_mul(17)).wrapping_add(turn as i32) as u32;
                let want = if cheb(me, target) > 3 && h % 3 == 0 {
                    let c = target + (target - me).rotate_90_cw().king_step();
                    if map.is_passable(&c, &blocking) { c } else { target }
                } else {
                    target
                };
                assert_eq!(flank_goal(&map, &blocking, me, target, turn), want);
            }
        }
    }
}

#[test]
fn aim_offsets() {
    let me = GridVec::new(5, 5);
    let aim = GridVec::new(9, 2);
    assert_eq!(aim_offset(None, EntityId(1), 3, me, aim, 4), (4, -3));
    assert_eq!(aim_offset(Some(AimingStyle::CarefulAim), EntityId(1), 3, me, aim, 4), (4, -3));
    assert_eq!(aim_offset(Some(AimingStyle::Suppression), EntityId(1), 3, me, aim, 4), (15, -15));
    assert_eq!(aim_offset(Some(AimingStyle::Suppression), EntityId(1), 3, me, aim, 20), (20, -20));
    for bits in 0..50u64 {
        for turn in [0u32, 1, 77, u32::MAX] {
            let h = (bits ^ turn as u64).wrapping_mul(6364136223846793005);
            let sx = (h % 3) as i32 - 1;
            let sy = ((h >> 16) % 3) as i32 - 1;
            assert_eq!(aim_offset(Some(AimingStyle::SnapShot), EntityId(bits), turn, me, aim, 4), (4 + sx, -3 + sy));
        }
    }
}

#[test]
fn ally_alerts() {
    let me = GridVec::new(0, 0);
    let alerts = [GridVec::new(30, 0), GridVec::new(12, 3), GridVec::new(-12, 0), GridVec::new(5, 5)];
    assert_eq!(nearest_alert(&alerts, me), Some(GridVec::new(5, 5)));
    assert_eq!(nearest_alert(&alerts[..3], me), Some(GridVec::new(12, 3)));
    assert_eq!(nearest_alert(&alerts[..1], me), None);
    let mut mem = AiMemory::default();
    adopt_alert(&mut mem, GridVec::new(5, 5), 10);
    assert_eq!(mem.last_known_pos, Some(GridVec::new(5, 5)));
    assert_eq!(mem.last_seen_turn, 10);
    adopt_alert(&mut mem, GridVec::new(7, 7), 49);
    assert_eq!(mem.last_known_pos, Some(GridVec::new(5, 5)));
    adopt_alert(&mut mem, GridVec::new(7, 7), 50);
    assert_eq!(mem.last_known_pos, Some(GridVec::new(7, 7)));
    assert_eq!(mem.last_seen_turn, 50);
}

#[test]
fn counting_adjacent_enemies() {
    let mut spatial = SpatialIndex { cells: Vec::new() };
    spatial.add_entity(GridVec::new(1, 0), EntityId(2));
    spatial.add_entity(GridVec::new(0, 1), EntityId(3));
    spatial.add_entity(GridVec::new(-1, -1), EntityId(4));
    spatial.add_entity(GridVec::new(0, 0), EntityId(1));
    let factions = [(EntityId(1), Faction::Outlaws), (EntityId(2), Faction::Lawmen), (EntityId(3), Faction::Outlaws)];
    let me = GridVec::new(0, 0);
    assert_eq!(adjacent_enemy_count(me, EntityId(1), Some(Faction::Outlaws), &spatial, &factions, None), 1);
    assert_eq!(adjacent_enemy_count(me, EntityId(1), Some(Faction::Outlaws), &spatial, &factions, Some(GridVec::new(1, 1))), 2);
    assert_eq!(adjacent_enemy_count(me, EntityId(1), Some(Faction::Outlaws), &spatial, &factions, Some(GridVec::new(1, 0))), 1);
    assert_eq!(adjacent_enemy_count(me, EntityId(1), Some(Faction::Apache), &spatial, &factions, None), 2);
    assert_eq!(adjacent_enemy_count(me, EntityId(1), None, &spatial, &factions, None), 0);
}

#[test]
fn cost_constants_are_positive() {
    assert!(COST_BASE > 0);
    assert!(COST_FIRE > COST_BASE);
    assert!(COST_NEAR_FIRE > COST_BASE);
    assert!(COST_NEAR_CACTUS > COST_BASE);
    assert!(COST_SAND_CLOUD > COST_BASE);
    assert!(COST_COVER_PER_WALL > 0);
    assert!(COST_EXPOSED > 0);
}

#[test]
fn target_lock_timeout_exceeds_rotation_sweep() {
    assert!(TARGET_LOCK_TIMEOUT > FULL_ROTATION_STEPS as u32);
}

#[test]
fn target_lock_persists_within_timeout() {
    let turns_since_seen: u32 = 15;
    assert!(turns_since_seen < TARGET_LOCK_TIMEOUT);
}

#[test]
fn target_lock_breaks_after_timeout() {
    let turns_since_seen: u32 = TARGET_LOCK_TIMEOUT;
    assert!(turns_since_seen >= TARGET_LOCK_TIMEOUT);
}

#[test]
fn proximity_override_forces_combat_within_range() {
    assert_eq!(PROXIMITY_OVERRIDE_RANGE, 5);
    let npc = GridVec::new(10, 10);
    let hostile_2 = GridVec::new(12, 10);
    let hostile_5 = GridVec::new(15, 10);
    let hostile_6 = GridVec::new(16, 10);
    assert!(npc.chebyshev_distance(hostile_2) <= PROXIMITY_OVERRIDE_RANGE);
    assert!(npc.chebyshev_distance(hostile_5) <= PROXIMITY_OVERRIDE_RANGE);
    assert!(npc.chebyshev_distance(hostile_6) > PROXIMITY_OVERRIDE_RANGE);
}

#[test]
fn close_threat_range_triggers_reprioritization() {
    assert_eq!(CLOSE_THREAT_RANGE, 8);
    let npc = GridVec::new(10, 10);
    let close = GridVec::new(17, 10);
    let distant = GridVec::new(25, 10);
    let close_dist = npc.chebyshev_distance(close);
    let dist_dist = npc.chebyshev_distance(distant);
    assert!(close_dist <= CLOSE_THREAT_RANGE);
    assert!(dist_dist > CLOSE_THREAT_RANGE);
    assert!(threat_score(close_dist) > threat_score(dist_dist));
}

#[test]
fn blind_fire_steps_and_search_sweeps_constants() {
    assert_eq!(BLIND_FIRE_STEPS, 4, "Blind fire after 4 cursor steps");
    assert_eq!(MAX_SEARCH_SWEEPS, 2, "Give up search after 2 failed sweeps");
}

#[test]
fn last_known_position_updates_while_visible() {
    let mut lkp: Option<GridVec> = None;
    let mut last_seen_turn: u32 = 0;
    let target_positions = [GridVec::new(10, 10), GridVec::new(11, 10), GridVec::new(12, 11)];
    for (turn, &tpos) in target_positions.iter().enumerate() {
        let visible = true;
        if visible {
            lkp = Some(tpos);
            last_seen_turn = turn as u32;
        }
        assert_eq!(lkp, Some(tpos), "LKP should update to {:?} on turn {}", tpos, turn);
        assert_eq!(last_seen_turn, turn as u32);
    }
}
