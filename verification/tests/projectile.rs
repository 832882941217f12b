use roguelike::components::{EntityId, Faction, ProjectileVisual};
use roguelike::grid_vec::GridVec;
use roguelike::noise::noise2d;
use roguelike::projectile::{
    advance_projectile, launch, resolve_bullet_hit, shrapnel_endpoints, BulletHitResult, Projectile, ShotEvent, ShotTarget,
    BULLET_TILES_PER_TICK, SHRAPNEL_DAMAGE,
};

fn value_noise(x: i32, y: i32, seed: u64) -> f64 {
    noise2d(x, y, seed) as f64 / u32::MAX as f64
}

/// The bullet rolls written with the float formulas.
fn reference_roll(tile: GridVec, path_index: usize, max_hp: i32, penetration: i32) -> BulletHitResult {
    let distance = path_index as f64;
    let hit_chance = (0.98 - distance * 0.02).clamp(0.35, 0.98);
    let headshot_chance = 0.02 + if distance < 1.0 { 0.08 } else { 0.0 };
    let roll_seed = 7919_u64.wrapping_add(path_index as u64);
    let roll = value_noise(tile.x, tile.y + path_index as i32, roll_seed);
    if roll > hit_chance {
        return BulletHitResult::Miss;
    }
    let hs = value_noise(tile.x, tile.y + path_index as i32, roll_seed.wrapping_add(13));
    if hs < headshot_chance {
        return BulletHitResult::Headshot { damage: max_hp };
    }
    BulletHitResult::Hit { damage: penetration }
}

#[test]
fn bullet_rolls_match_the_float_formula() {
    let mut kinds = [0usize; 3];
    for x in -20..20 {
        for y in -20..20 {
            for d in [0usize, 1, 2, 10, 30, 31, 32, 33, 60] {
                let t = GridVec::new(x, y);
                let r = resolve_bullet_hit(t, d, 100, 44);
                assert_eq!(r, reference_roll(t, d, 100, 44), "({x},{y}) d={d}");
                kinds[match r {
                    BulletHitResult::Miss => 0,
                    BulletHitResult::Headshot { .. } => 1,
                    BulletHitResult::Hit { .. } => 2,
                }] += 1;
            }
        }
    }
    assert!(kinds.iter().all(|&k| k > 0));
}

fn line(n: i32) -> Vec<GridVec> {
    (0..=n).map(|i| GridVec::new(i, 0)).collect()
}

fn proj(path: Vec<GridVec>, visual: ProjectileVisual, bullet: bool, damage: i32) -> Projectile {
    Projectile {
        path,
        path_index: 1,
        tiles_per_tick: 12,
        damage,
        penetration: damage,
        source: EntityId(1),
        tail_pos: None,
        visual,
        is_bullet: bullet,
    }
}

fn target(id: u64, x: i32, faction: Option<Faction>) -> ShotTarget {
    ShotTarget { entity: EntityId(id), pos: GridVec::new(x, 0), max_hp: 50, faction }
}

#[test]
fn a_wall_stops_the_projectile() {
    let mut p = proj(line(10), ProjectileVisual::BulletTrail, false, 20);
    let mut open = vec![true; 11];
    open[4] = false;
    let (events, despawn) = advance_projectile(&mut p, 12, &open, None, &[], None);
    assert_eq!(events, vec![ShotEvent::Blocked { at: GridVec::new(4, 0) }]);
    assert!(despawn);
    assert_eq!(p.path_index, 4);
    assert_eq!(p.tail_pos, Some(GridVec::new(3, 0)));
}

#[test]
fn a_projectile_advances_at_most_its_steps() {
    let mut p = proj(line(10), ProjectileVisual::BulletTrail, false, 20);
    let (events, despawn) = advance_projectile(&mut p, 3, &vec![true; 11], None, &[], None);
    assert!(events.is_empty());
    assert!(!despawn);
    assert_eq!(p.path_index, 4);
    assert_eq!(p.tail_pos, Some(GridVec::new(3, 0)));
    // Running off the end of the path despawns it.
    let (_, despawn) = advance_projectile(&mut p, 12, &vec![true; 11], None, &[], None);
    assert!(despawn);
    assert_eq!(p.path_index, 11);
}

#[test]
fn a_thrown_blade_stops_at_its_first_hit() {
    let mut p = proj(line(10), ProjectileVisual::SpinningBlade, false, 15);
    let targets = [target(7, 3, Some(Faction::Outlaws)), target(8, 3, Some(Faction::Outlaws)), target(9, 6, None)];
    let (events, despawn) =
        advance_projectile(&mut p, 12, &vec![true; 11], Some(Faction::Lawmen), &targets, None);
    assert_eq!(events, vec![ShotEvent::Hit { target: EntityId(7), amount: 15, at: GridVec::new(3, 0) }]);
    assert!(despawn);
    assert_eq!(p.penetration, 0);
}

#[test]
fn shrapnel_passes_through_and_spares_allies() {
    let mut p = proj(line(10), ProjectileVisual::BulletTrail, false, 20);
    let targets = [target(7, 2, Some(Faction::Lawmen)), target(8, 2, Some(Faction::Outlaws)), target(9, 5, None)];
    let (events, despawn) =
        advance_projectile(&mut p, 6, &vec![true; 11], Some(Faction::Lawmen), &targets, None);
    assert_eq!(
        events,
        vec![
            ShotEvent::Hit { target: EntityId(8), amount: 20, at: GridVec::new(2, 0) },
            ShotEvent::Hit { target: EntityId(9), amount: 20, at: GridVec::new(5, 0) },
        ]
    );
    assert!(!despawn);
    assert_eq!(p.path_index, 7);
    assert_eq!(p.penetration, 20);
}

#[test]
fn the_throwers_own_shrapnel_hurts_them_by_half() {
    let mut p = proj(line(5), ProjectileVisual::BulletTrail, false, 20);
    let me = ShotTarget { entity: EntityId(1), pos: GridVec::new(2, 0), max_hp: 100, faction: None };
    let (events, despawn) = advance_projectile(&mut p, 12, &vec![true; 6], None, &[], Some(me));
    assert_eq!(events, vec![ShotEvent::SelfHit { target: EntityId(1), amount: 10, at: GridVec::new(2, 0) }]);
    assert!(despawn);
    let mut weak = proj(line(5), ProjectileVisual::BulletTrail, false, 1);
    let (events, _) = advance_projectile(&mut weak, 12, &vec![true; 6], None, &[], Some(me));
    assert_eq!(events, vec![ShotEvent::SelfHit { target: EntityId(1), amount: 1, at: GridVec::new(2, 0) }]);
}

#[test]
fn an_npc_bullet_rolls_against_the_player() {
    // Scan player positions along a long path; each outcome follows the
    // float rolls, and a miss lets the bullet fly on.
    let mut seen_miss = false;
    let mut seen_hit = false;
    for px in 1..40 {
        let mut p = proj(line(40), ProjectileVisual::BulletTrail, true, 44);
        p.source = EntityId(5);
        let player = ShotTarget { entity: EntityId(1), pos: GridVec::new(px, 0), max_hp: 100, faction: None };
        let (events, despawn) = advance_projectile(&mut p, 64, &vec![true; 41], None, &[], Some(player));
        let tile = GridVec::new(px, 0);
        match reference_roll(tile, px as usize, 100, 44) {
            BulletHitResult::Miss => {
                seen_miss = true;
                assert_eq!(events, vec![ShotEvent::Missed { target: EntityId(1), at: tile }]);
                assert_eq!(p.path_index, 41);
            }
            BulletHitResult::Headshot { damage } => {
                assert_eq!(events, vec![ShotEvent::Headshot { target: EntityId(1), amount: damage, at: tile }]);
                assert_eq!(p.path_index, px as usize);
            }
            BulletHitResult::Hit { damage } => {
                seen_hit = true;
                assert_eq!(events, vec![ShotEvent::Hit { target: EntityId(1), amount: damage, at: tile }]);
                assert_eq!(p.path_index, px as usize);
            }
        }
        assert!(despawn);
    }
    assert!(seen_miss && seen_hit);
}

#[test]
fn launching_needs_two_distinct_points() {
    let o = GridVec::new(3, 4);
    assert!(launch(o, o, 10, EntityId(1), BULLET_TILES_PER_TICK, ProjectileVisual::BulletTrail, true).is_none());
    let p = launch(o, GridVec::new(7, 6), 10, EntityId(1), BULLET_TILES_PER_TICK, ProjectileVisual::BulletTrail, true)
        .unwrap();
    assert_eq!(p.path.len(), 5);
    assert_eq!(p.path[0], o);
    assert_eq!(*p.path.last().unwrap(), GridVec::new(7, 6));
    assert_eq!(p.path_index, 1);
    assert_eq!(p.penetration, 10);
    assert_eq!(p.tiles_per_tick, 12);
}

#[test]
fn shrapnel_fans_out_over_the_square() {
    let o = GridVec::new(10, 10);
    let e = shrapnel_endpoints(o, 1);
    let expected: Vec<GridVec> = [(-1, -1), (-1, 0), (-1, 1), (0, -1), (0, 1), (1, -1), (1, 0), (1, 1)]
        .iter()
        .map(|&(dx, dy)| GridVec::new(10 + dx, 10 + dy))
        .collect();
    assert_eq!(e, expected);
    assert_eq!(shrapnel_endpoints(o, 3).len(), 48);
    assert!(shrapnel_endpoints(o, 0).is_empty());
    assert_eq!(SHRAPNEL_DAMAGE, 20);
}
