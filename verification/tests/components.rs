use roguelike::components::{
    AiState, Caliber, CombatStats, Energy, Health, ItemKind, Position, Speed, Stamina, ACTION_COST,
};
use roguelike::grid_vec::GridVec;

#[test]
fn position_as_grid_vec() {
    let pos = Position { x: 10, y: 20 };
    let gv = pos.as_grid_vec();
    assert_eq!(gv, GridVec::new(10, 20));
}

#[test]
fn position_from_grid_vec() {
    let gv = GridVec::new(5, -3);
    let pos = Position::from(gv);
    assert_eq!(pos.x, 5);
    assert_eq!(pos.y, -3);
}

#[test]
fn grid_vec_from_position() {
    let pos = Position { x: 7, y: 13 };
    let gv: GridVec = pos.into();
    assert_eq!(gv, GridVec::new(7, 13));
}

#[test]
fn position_round_trip() {
    let original = Position { x: -42, y: 99 };
    let gv = original.as_grid_vec();
    let back = Position::from(gv);
    assert_eq!(original, back);
}

#[test]
fn health_full() {
    let h = Health { current: 30, max: 30 };
    assert_eq!(h.current, h.max);
}

#[test]
fn health_damage_reduces_current() {
    let mut h = Health { current: 30, max: 30 };
    let actual = h.apply_damage(5);
    assert_eq!(actual, 5);
    assert_eq!(h.current, 25);
    assert_eq!(h.max, 30);
}

#[test]
fn health_damage_clamps_to_zero() {
    let mut h = Health { current: 3, max: 30 };
    let actual = h.apply_damage(10);
    assert_eq!(actual, 3, "Actual damage should be clamped to current HP");
    assert_eq!(h.current, 0);
}

#[test]
fn health_apply_damage_returns_actual() {
    let mut h = Health { current: 5, max: 30 };
    assert_eq!(h.apply_damage(3), 3);
    assert_eq!(h.current, 2);
    assert_eq!(h.apply_damage(10), 2);
    assert_eq!(h.current, 0);
}

#[test]
fn health_heal_clamps_to_max() {
    let mut h = Health { current: 25, max: 30 };
    let healed = h.heal(10);
    assert_eq!(healed, 5, "Should only heal the deficit");
    assert_eq!(h.current, 30);
}

#[test]
fn health_heal_returns_actual() {
    let mut h = Health { current: 20, max: 30 };
    assert_eq!(h.heal(5), 5);
    assert_eq!(h.current, 25);
}

#[test]
fn health_heal_at_full_returns_zero() {
    let mut h = Health { current: 30, max: 30 };
    assert_eq!(h.heal(5), 0);
    assert_eq!(h.current, 30);
}

#[test]
fn health_is_dead() {
    assert!(Health { current: 0, max: 30 }.is_dead());
    assert!(!Health { current: 1, max: 30 }.is_dead());
}

#[test]
fn health_invariant_maintained() {
    let mut h = Health { current: 10, max: 30 };
    h.apply_damage(100);
    assert!(h.current >= 0 && h.current <= h.max);
    h.heal(100);
    assert!(h.current >= 0 && h.current <= h.max);
}

#[test]
fn damage_formula_positive() {
    let attacker = CombatStats { attack: 5 };
    assert_eq!(attacker.damage_against(), 5);
}

#[test]
fn damage_formula_equals_attack() {
    let attacker = CombatStats { attack: 3 };
    assert_eq!(attacker.damage_against(), 3);
}

#[test]
fn damage_formula_zero_attack() {
    let attacker = CombatStats { attack: 2 };
    assert_eq!(attacker.damage_against(), 2);
}

#[test]
fn damage_against_non_negative() {
    for atk in 0..20 {
        assert!(CombatStats { attack: atk }.damage_against() >= 0);
    }
}

#[test]
fn damage_against_monotone_in_attack() {
    for atk in 0..19 {
        let d1 = CombatStats { attack: atk }.damage_against();
        let d2 = CombatStats { attack: atk + 1 }.damage_against();
        assert!(d1 <= d2);
    }
}

#[test]
fn damage_against_zero_only_for_zero_attack() {
    for atk in 0..15 {
        let d = CombatStats { attack: atk }.damage_against();
        if atk <= 0 {
            assert_eq!(d, 0);
        } else {
            assert!(d > 0);
        }
    }
}

#[test]
fn action_cost_is_100() {
    assert_eq!(ACTION_COST, 100);
}

#[test]
fn energy_accumulation_normal_speed() {
    let speed = Speed(100);
    let mut energy = Energy(0);
    energy.accumulate(&speed);
    assert_eq!(energy.0, 100);
    assert!(energy.can_act());
}

#[test]
fn energy_accumulation_slow_speed() {
    let speed = Speed(50);
    let mut energy = Energy(0);
    energy.accumulate(&speed);
    assert_eq!(energy.0, 50);
    assert!(!energy.can_act());
    energy.accumulate(&speed);
    assert_eq!(energy.0, 100);
    assert!(energy.can_act());
}

#[test]
fn energy_accumulation_fast_speed() {
    let speed = Speed(200);
    let mut energy = Energy(0);
    energy.accumulate(&speed);
    assert_eq!(energy.0, 200);
    assert!(energy.can_act());
    energy.spend_action();
    assert!(energy.can_act());
}

#[test]
fn energy_deduction_leaves_excess() {
    let speed = Speed(120);
    let mut energy = Energy(0);
    energy.accumulate(&speed);
    energy.spend_action();
    assert_eq!(energy.0, 20);
}

#[test]
fn energy_scheduling_fairness() {
    for &spd in &[50, 75, 100, 120, 150, 200] {
        let speed = Speed(spd);
        let mut energy = Energy(0);
        let mut actions = 0i64;
        let n = 100;
        for _ in 0..n {
            energy.accumulate(&speed);
            while energy.can_act() {
                energy.spend_action();
                actions += 1;
            }
        }
        let expected = (n as i64 * spd as i64) / ACTION_COST as i64;
        assert_eq!(actions, expected, "Speed {spd}: expected {expected} actions over {n} ticks, got {actions}");
    }
}

#[test]
fn ai_state_idle_default() {
    let state = AiState::Idle;
    assert_eq!(state, AiState::Idle);
}

#[test]
fn ai_state_transitions() {
    let state = AiState::Idle;
    assert_eq!(state, AiState::Idle);
    let state = AiState::Chasing;
    assert_eq!(state, AiState::Chasing);
}

#[test]
fn caliber_display_formatting() {
    assert_eq!(Caliber::Cal31.label(), ".31");
    assert_eq!(Caliber::Cal36.label(), ".36");
    assert_eq!(Caliber::Cal44.label(), ".44");
}

#[test]
fn gun_loaded_rounds_decrement() {
    let mut gun = ItemKind::Gun {
        loaded: 6,
        capacity: 6,
        caliber: Caliber::Cal36,
        attack: 5,
        name: "Test Gun".into(),
        blunt_damage: 5,
    };
    if let ItemKind::Gun { ref mut loaded, .. } = gun {
        *loaded -= 1;
        assert_eq!(*loaded, 5);
    }
}

#[test]
fn gun_cannot_fire_when_empty() {
    let gun = ItemKind::Gun {
        loaded: 0,
        capacity: 6,
        caliber: Caliber::Cal36,
        attack: 5,
        name: "Test Gun".into(),
        blunt_damage: 5,
    };
    if let ItemKind::Gun { loaded, .. } = gun {
        assert_eq!(loaded, 0);
        assert!(loaded <= 0, "Gun should not be able to fire");
    }
}

#[test]
fn stamina_spend_success() {
    let mut s = Stamina { current: 50, max: 50 };
    assert!(s.spend(10));
    assert_eq!(s.current, 40);
}

#[test]
fn stamina_spend_insufficient() {
    let mut s = Stamina { current: 5, max: 50 };
    assert!(!s.spend(10));
    assert_eq!(s.current, 5, "Should not mutate on failed spend");
}

#[test]
fn stamina_spend_exact() {
    let mut s = Stamina { current: 10, max: 50 };
    assert!(s.spend(10));
    assert_eq!(s.current, 0);
}

#[test]
fn stamina_recover_clamps_to_max() {
    let mut s = Stamina { current: 45, max: 50 };
    s.recover(10);
    assert_eq!(s.current, 50);
}

#[test]
fn stamina_recover_partial() {
    let mut s = Stamina { current: 30, max: 50 };
    s.recover(5);
    assert_eq!(s.current, 35);
}

#[test]
fn stamina_invariant_maintained() {
    let mut s = Stamina { current: 25, max: 50 };
    s.spend(100);
    assert!(s.current >= 0 && s.current <= s.max);
    s.recover(100);
    assert!(s.current >= 0 && s.current <= s.max);
}
