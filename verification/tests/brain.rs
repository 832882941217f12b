use roguelike::brain::{ai_step, AiAct, AiPercept};
use roguelike::components::AiState;
use roguelike::grid_vec::GridVec;

fn calm() -> AiPercept {
    AiPercept {
        player_alive: true,
        proximity_target: None,
        can_heal: false,
        dodge_step: None,
        fire_step: None,
        should_flee: false,
        chase_target: None,
        can_reload: false,
        all_guns_empty: false,
        memory_target: None,
        nearest_item: None,
        rotating: false,
        look_around_due: false,
        patrol_pause: false,
        has_patrol_origin: true,
        threat_pos: None,
        tracked_target: None,
        at_tracked_target: false,
        sweeps_left: false,
    }
}

#[test]
fn idle_npc_rotates_and_patroller_patrols() {
    assert_eq!(ai_step(AiState::Idle, &calm()), (AiState::Idle, AiAct::Rotate));
    assert_eq!(ai_step(AiState::Patrolling, &calm()), (AiState::Patrolling, AiAct::Patrol));
    let pause = AiPercept { patrol_pause: true, ..calm() };
    assert_eq!(ai_step(AiState::Patrolling, &pause), (AiState::Patrolling, AiAct::Rotate));
}

#[test]
fn seen_target_starts_a_chase() {
    let t = GridVec::new(4, 2);
    let p = AiPercept { chase_target: Some(t), ..calm() };
    assert_eq!(ai_step(AiState::Idle, &p), (AiState::Chasing, AiAct::BeginChase(t)));
    assert_eq!(ai_step(AiState::Chasing, &p), (AiState::Chasing, AiAct::Engage(t)));
}

#[test]
fn critical_health_flees_the_threat() {
    let t = GridVec::new(1, 1);
    let p = AiPercept { should_flee: true, threat_pos: Some(t), chase_target: Some(t), ..calm() };
    for s in [AiState::Idle, AiState::Patrolling, AiState::Chasing, AiState::Fleeing] {
        assert_eq!(ai_step(s, &p), (AiState::Fleeing, AiAct::Flee(t)));
    }
    let lost = AiPercept { should_flee: true, has_patrol_origin: false, ..calm() };
    assert_eq!(ai_step(AiState::Fleeing, &lost), (AiState::Idle, AiAct::ReturnHome));
}

#[test]
fn overrides_come_before_the_state_machine() {
    let d = GridVec::new(0, 1);
    let p = AiPercept { dodge_step: Some(d), should_flee: true, ..calm() };
    assert_eq!(ai_step(AiState::Patrolling, &p), (AiState::Patrolling, AiAct::Dodge(d)));
    let heal = AiPercept { can_heal: true, proximity_target: Some(d), ..calm() };
    assert_eq!(ai_step(AiState::Idle, &heal), (AiState::Chasing, AiAct::Heal));
    let fire = AiPercept { fire_step: Some(d), ..calm() };
    assert_eq!(ai_step(AiState::Chasing, &fire), (AiState::Chasing, AiAct::EscapeFire(d)));
}

#[test]
fn exhausted_pursuit_gives_up_and_rests() {
    assert_eq!(ai_step(AiState::Chasing, &calm()), (AiState::Patrolling, AiAct::GiveUp));
    let home_less = AiPercept { has_patrol_origin: false, ..calm() };
    assert_eq!(ai_step(AiState::Chasing, &home_less), (AiState::Idle, AiAct::GiveUp));
    let t = GridVec::new(9, 9);
    let tracking = AiPercept { tracked_target: Some(t), ..calm() };
    assert_eq!(ai_step(AiState::Chasing, &tracking), (AiState::Chasing, AiAct::Track(t)));
    let sweeping = AiPercept { tracked_target: Some(t), at_tracked_target: true, sweeps_left: true, ..calm() };
    assert_eq!(ai_step(AiState::Chasing, &sweeping), (AiState::Chasing, AiAct::SearchSweep));
}

#[test]
fn dead_player_is_no_longer_chased() {
    let p = AiPercept { player_alive: false, ..calm() };
    assert_eq!(ai_step(AiState::Chasing, &p), (AiState::Patrolling, AiAct::Patrol));
}

#[test]
fn recovered_npc_returns_to_the_chase() {
    let t = GridVec::new(3, 3);
    let p = AiPercept { chase_target: Some(t), ..calm() };
    assert_eq!(ai_step(AiState::Fleeing, &p), (AiState::Chasing, AiAct::Engage(t)));
    assert_eq!(ai_step(AiState::Fleeing, &calm()), (AiState::Patrolling, AiAct::Patrol));
}
