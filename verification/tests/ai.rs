use roguelike::ai::{
    effective_awareness_range, threat_score, FULL_ROTATION_STEPS, PURSUIT_AWARENESS_BOOST,
    PURSUIT_BOOST_DECAY_TURNS,
};
use roguelike::components::AiPursuitBoost;
use roguelike::grid_vec::GridVec;

#[test]
fn circular_rotation_cycles_all_8_directions() {
    // Verify that DIRECTIONS_8 is 8 elements and they form a CW cycle.
    assert_eq!(GridVec::directions_8().len(), 8);
    // Starting from NORTH, stepping CW through all 8 should return to NORTH.
    let start_idx = GridVec::directions_8().iter()
        .position(|&d| d == GridVec::north())
        .unwrap();
    let end_idx = (start_idx + 8) % 8;
    assert_eq!(GridVec::directions_8()[end_idx], GridVec::north());
}

#[test]
fn full_rotation_steps_constant_is_eight() {
    assert_eq!(FULL_ROTATION_STEPS, 8,
        "A full 360° rotation should take exactly 8 steps of 45° each");
}

#[test]
fn rotation_counter_prevents_premature_resume() {
    // Simulate a rotation sequence by manually tracking the counter.
    let mut remaining: u8 = FULL_ROTATION_STEPS;
    let mut steps_taken = 0;
    while remaining > 0 {
        remaining = remaining.saturating_sub(1);
        steps_taken += 1;
    }
    assert_eq!(steps_taken, FULL_ROTATION_STEPS as u32);
}

#[test]
fn half_rotation_requires_four_steps() {
    // A half rotation (180°) requires at least 4 × 45° steps.
    // This ensures an NPC won't face a recently-faced direction
    // until completing at least a half rotation.
    let start = GridVec::north();
    let start_idx = GridVec::directions_8().iter()
        .position(|&d| d == start)
        .unwrap();
    let opposite_idx = (start_idx + 4) % 8;
    assert_eq!(GridVec::directions_8()[opposite_idx], GridVec::south(),
        "4 CW steps from NORTH should reach SOUTH (opposite)");
}

// ── Target persistence & threat scoring tests ─────────────────

#[test]
fn threat_score_closer_hostile_scores_higher() {
    // A hostile at distance 3 should outscore one at distance 15.
    // This validates dynamic reprioritization: NPCs switch to nearer threats.
    let close_score = threat_score(3);
    let far_score = threat_score(15);
    assert!(close_score > far_score,
        "Closer hostile (d=3, score={}) should outscore distant (d=15, score={})",
        close_score, far_score);
}

#[test]
fn threat_score_distance_dominates() {
    // Closer targets always outscore distant ones — no aiming/ally modifiers.
    let near = threat_score(5);
    let far = threat_score(15);
    assert!(near > far,
        "Near hostile (d=5, score={}) should outscore distant (d=15, score={})",
        near, far);
}

#[test]
fn threat_score_zero_at_max_range() {
    // At distance 40+, the score should be 0 (clamped).
    let score = threat_score(50);
    assert_eq!(score, 0, "Threat score at extreme range should be 0");
}

#[test]
fn effective_awareness_extends_during_pursuit() {
    // With a pursuit boost, the effective awareness range should exceed
    // the base range.
    let base = 16; // typical: viewshed_range(8) * 2
    let boost = AiPursuitBoost {
        extra_range: PURSUIT_AWARENESS_BOOST,
        last_spotted_turn: 100,
    };
    let eff = effective_awareness_range(base, Some(&boost), 100);
    assert_eq!(eff, base + PURSUIT_AWARENESS_BOOST,
        "Effective range should be base ({}) + boost ({})", base, PURSUIT_AWARENESS_BOOST);
}

#[test]
fn pursuit_boost_decays_over_time() {
    // Pursuit boost decays by 1 per PURSUIT_BOOST_DECAY_TURNS of unseen.
    let base = 16;
    let boost = AiPursuitBoost {
        extra_range: PURSUIT_AWARENESS_BOOST,
        last_spotted_turn: 100,
    };
    // After 3 * PURSUIT_BOOST_DECAY_TURNS turns, boost should have decayed by 3.
    let turns_elapsed = PURSUIT_BOOST_DECAY_TURNS * 3;
    let eff = effective_awareness_range(base, Some(&boost), 100 + turns_elapsed);
    assert_eq!(eff, base + PURSUIT_AWARENESS_BOOST - 3,
        "After {} turns unseen, boost should decay by 3", turns_elapsed);
}

#[test]
fn pursuit_boost_fully_decays_to_baseline() {
    // After enough time, the boost should decay completely to 0.
    let base = 16;
    let boost = AiPursuitBoost {
        extra_range: PURSUIT_AWARENESS_BOOST,
        last_spotted_turn: 100,
    };
    let many_turns = PURSUIT_BOOST_DECAY_TURNS * (PURSUIT_AWARENESS_BOOST as u32 + 5);
    let eff = effective_awareness_range(base, Some(&boost), 100 + many_turns);
    assert_eq!(eff, base,
        "After {} turns unseen, awareness should return to baseline ({})", many_turns, base);
}

#[test]
fn cursor_advances_toward_new_target_after_switch() {
    // Simulate: NPC has cursor at (10, 10) aimed at old target (15, 10).
    // Target switches to (10, 15). Cursor should advance from (10, 10)
    // toward (10, 15) — not reset to NPC position.
    let mut cursor_pos = GridVec::new(10, 10);
    let new_target = GridVec::new(10, 15);
    let npc_pos = GridVec::new(5, 5);

    // Simulate 3 king-steps toward the new target.
    let steps = 3;
    for _ in 0..steps {
        if cursor_pos == new_target { break; }
        let step = (new_target - cursor_pos).king_step();
        cursor_pos = cursor_pos + step;
    }

    // Cursor should have moved toward new target, NOT toward NPC pos.
    // Initial distance from cursor (10,10) to target (10,15) is 5.
    // After 3 steps, distance should be 5 - 3 = 2.
    let initial_dist = 5;
    assert!(cursor_pos.chebyshev_distance(new_target) < initial_dist,
        "Cursor at {:?} should have advanced toward {:?} (not reset to NPC {:?})",
        cursor_pos, new_target, npc_pos);
    // Cursor should be at (10, 13) after 3 steps along Y axis.
    assert_eq!(cursor_pos, GridVec::new(10, 13),
        "After 3 south steps, cursor should be at (10,13)");
}

#[test]
fn cursor_tracks_moving_target_continuously() {
    // Simulate: target moves from (15, 10) to (18, 10) over 3 turns.
    // Cursor starts at (10, 10). Each turn it advances toward the
    // target's current position — never stalls or resets.
    let mut cursor_pos = GridVec::new(10, 10);
    let target_positions = [
        GridVec::new(15, 10),
        GridVec::new(16, 10),
        GridVec::new(17, 10),
        GridVec::new(18, 10),
    ];

    let mut prev_dist = cursor_pos.chebyshev_distance(target_positions[0]);
    for &target in &target_positions {
        // Simulate 2 king-steps per turn toward current target position.
        for _ in 0..2 {
            if cursor_pos == target { break; }
            let step = (target - cursor_pos).king_step();
            cursor_pos = cursor_pos + step;
        }
        let cur_dist = cursor_pos.chebyshev_distance(target);
        // Cursor should either stay the same distance or get closer.
        // (Target moving away may keep distance constant.)
        assert!(cur_dist <= prev_dist + 1,
            "Cursor should track target. dist {} > prev {} + 1", cur_dist, prev_dist);
        prev_dist = cur_dist;
    }
    // After 4 turns × 2 steps = 8 steps, cursor should be well advanced.
    assert!(cursor_pos.x > 10,
        "Cursor x ({}) should have advanced rightward from starting x=10", cursor_pos.x);
}
