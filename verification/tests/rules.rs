use roguelike::components::{Caliber, CollectibleKind, CombatStats, EntityId, Faction, Health, ItemKind, Position, Stamina};
use roguelike::events::{DamageEvent, MoveIntent};
use roguelike::grid_vec::GridVec;
use roguelike::noise::noise2d;
use roguelike::resources::{BloodMap, CursorPosition, DynamicRng, InputState, SpatialIndex};
use roguelike::rules::{
    aggro_reaction, apply_damage_event, camera_center, consume_pending_stamina, escaped_town, loot_drops, melee_damage,
    resolve_move, sound_indicators, AggroReaction,
};

#[test]
fn camera_sits_between_player_and_cursor() {
    assert_eq!(camera_center(GridVec::new(3, 4), GridVec::new(6, 9)), GridVec::new(4, 6));
    assert_eq!(camera_center(GridVec::new(-3, 0), GridVec::new(0, -1)), GridVec::new(-1, 0));
}

#[test]
fn escape_band_on_every_edge() {
    assert!(escaped_town(GridVec::new(1, 50), 100, 80));
    assert!(escaped_town(GridVec::new(50, 78), 100, 80));
    assert!(escaped_town(GridVec::new(98, 40), 100, 80));
    assert!(!escaped_town(GridVec::new(50, 40), 100, 80));
}

#[test]
fn move_updates_position_index_blood_and_cursor() {
    let e = EntityId(7);
    let mut pos = Position { x: 5, y: 5 };
    let mut hp = Some(Health { current: 30, max: 100 });
    let mut spatial = SpatialIndex::default();
    spatial.add_entity(GridVec::new(5, 5), e);
    let mut blood = BloodMap::default();
    let mut cursor = CursorPosition::at(GridVec::new(8, 5));
    let intent = MoveIntent { entity: e, dx: 1, dy: 0 };
    let moved = resolve_move(&intent, &mut pos, &mut hp, false, true, true, false, 10, &mut spatial, &mut blood, &mut cursor);
    assert!(moved);
    assert_eq!(pos, Position { x: 6, y: 5 });
    assert_eq!(spatial.entities_at(&GridVec::new(6, 5)), &[e]);
    assert!(spatial.entities_at(&GridVec::new(5, 5)).is_empty());
    assert_eq!(blood.stains, vec![(GridVec::new(5, 5), 10)]);
    // Turn 10 is a wound tick: a wounded, living mover loses a point.
    assert_eq!(hp, Some(Health { current: 29, max: 100 }));
    assert_eq!(cursor.pos, GridVec::new(9, 5));
}

#[test]
fn blocked_move_changes_nothing() {
    let e = EntityId(1);
    let mut pos = Position { x: 2, y: 2 };
    let mut hp = Some(Health { current: 10, max: 100 });
    let mut spatial = SpatialIndex::default();
    let mut blood = BloodMap::default();
    let mut cursor = CursorPosition::at(GridVec::new(0, 0));
    let intent = MoveIntent { entity: e, dx: 0, dy: 1 };
    assert!(!resolve_move(&intent, &mut pos, &mut hp, false, true, true, true, 5, &mut spatial, &mut blood, &mut cursor));
    assert!(!resolve_move(&intent, &mut pos, &mut hp, false, true, false, false, 5, &mut spatial, &mut blood, &mut cursor));
    assert_eq!(pos, Position { x: 2, y: 2 });
    assert!(blood.stains.is_empty());
    assert_eq!(hp, Some(Health { current: 10, max: 100 }));
}

#[test]
fn healthy_mover_leaves_no_blood() {
    let e = EntityId(3);
    let mut pos = Position { x: 0, y: 0 };
    let mut hp = Some(Health { current: 80, max: 100 });
    let mut spatial = SpatialIndex::default();
    let mut blood = BloodMap::default();
    let mut cursor = CursorPosition::at(GridVec::new(0, 0));
    let intent = MoveIntent { entity: e, dx: -1, dy: -1 };
    assert!(resolve_move(&intent, &mut pos, &mut hp, false, false, true, false, 3, &mut spatial, &mut blood, &mut cursor));
    assert!(blood.stains.is_empty());
    assert_eq!(hp, Some(Health { current: 80, max: 100 }));
    assert_eq!(cursor.pos, GridVec::new(0, 0));
}

#[test]
fn god_mode_shields_the_player() {
    let ev = DamageEvent { target: EntityId(1), amount: 15, source: Some(EntityId(2)) };
    let mut h = Health { current: 50, max: 50 };
    assert!(!apply_damage_event(&ev, &mut h, true, true));
    assert_eq!(h.current, 50);
    assert!(apply_damage_event(&ev, &mut h, false, true));
    assert_eq!(h.current, 35);
}

#[test]
fn melee_without_items_is_base_damage() {
    let rng = DynamicRng { tick: 4 };
    let (d, name) = melee_damage(&CombatStats { attack: 6 }, &[], &rng, 42, EntityId(9));
    assert_eq!(d, 6);
    assert_eq!(name, None);
}

#[test]
fn melee_bonus_from_picked_item() {
    let rng = DynamicRng { tick: 4 };
    let knife = ItemKind::Knife { attack: 4, blunt_damage: 3 };
    let kinds = vec![Some(knife.clone()), Some(knife.clone())];
    let (d, name) = melee_damage(&CombatStats { attack: 6 }, &kinds, &rng, 42, EntityId(9));
    assert_eq!(d, 9);
    assert_eq!(name, Some("Knife".to_string()));
}

#[test]
fn aggro_spreads_by_faction() {
    let t = EntityId(1);
    let a = EntityId(2);
    let n = EntityId(3);
    let tp = GridVec::new(10, 10);
    assert_eq!(aggro_reaction(n, GridVec::new(12, 12), Some(Faction::Lawmen), a, t, tp, Some(Faction::Lawmen)), Some(AggroReaction::TurnHostile));
    assert_eq!(aggro_reaction(n, GridVec::new(12, 12), Some(Faction::Outlaws), a, t, tp, Some(Faction::Lawmen)), Some(AggroReaction::Flee));
    assert_eq!(aggro_reaction(n, GridVec::new(19, 10), Some(Faction::Lawmen), a, t, tp, Some(Faction::Lawmen)), None);
    assert_eq!(aggro_reaction(n, GridVec::new(11, 10), None, a, t, tp, Some(Faction::Lawmen)), None);
    assert_eq!(aggro_reaction(a, GridVec::new(11, 10), Some(Faction::Lawmen), a, t, tp, Some(Faction::Lawmen)), None);
}

fn value_noise(x: i32, y: i32, seed: u64) -> f64 {
    noise2d(x, y, seed) as f64 / u32::MAX as f64
}

#[test]
fn loot_matches_float_rolls() {
    for k in 0..40i32 {
        let p = GridVec::new(3 * k - 17, 11 - k);
        let seed = 42u64 + k as u64;
        let (caps, powder, ammo) = loot_drops(p, k, seed, Some(Caliber::Cal44));
        let c = value_noise(p.x.wrapping_add(k + 1), p.y, seed.wrapping_add(33333));
        let expect_caps = if c < 0.5 { Some(CollectibleKind::Caps(((c * 20.0) as i32).max(1))) } else { None };
        let w = value_noise(p.x.wrapping_add(k + 2), p.y, seed.wrapping_add(55555));
        let expect_powder = if w < 0.4 { Some(CollectibleKind::Powder(((w * 10.0) as i32).max(1))) } else { None };
        let a = value_noise(p.y.wrapping_add(k + 1), p.x, seed.wrapping_add(44444));
        let expect_ammo = if a < 0.4 { Some(CollectibleKind::Bullets44(((a * 15.0) as i32).max(1))) } else { None };
        assert_eq!(caps, expect_caps);
        assert_eq!(powder, expect_powder);
        assert_eq!(ammo, expect_ammo);
    }
}

#[test]
fn sounds_flagged_only_when_unseen_but_known() {
    let player = GridVec::new(0, 0);
    let events = vec![(GridVec::new(3, 3), 1), (GridVec::new(30, 0), 1), (GridVec::new(5, 5), 2), (GridVec::new(1, 1), 1)];
    let visible = vec![GridVec::new(1, 1)];
    let revealed = vec![GridVec::new(3, 3), GridVec::new(30, 0), GridVec::new(1, 1)];
    assert_eq!(sound_indicators(player, &events, &visible, &revealed), vec![GridVec::new(3, 3)]);
}

#[test]
fn pending_stamina_is_charged_once() {
    let mut input = InputState::default();
    input.dive_stamina_pending = 20;
    input.ability_stamina_pending = 50;
    let mut st = Some(Stamina { current: 60, max: 100 });
    consume_pending_stamina(&mut input, &mut st);
    assert_eq!(st, Some(Stamina { current: 40, max: 100 }));
    assert_eq!(input.dive_stamina_pending, 0);
    assert_eq!(input.ability_stamina_pending, 0);
}
