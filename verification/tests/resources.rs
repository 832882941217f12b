use roguelike::components::EntityId;
use roguelike::grid_vec::GridVec;
use roguelike::resources::{Collectibles, CombatLog, CursorPosition, SpatialIndex, MAX_COMBAT_LOG_MESSAGES};

#[test]
fn combat_log_default_is_empty() {
    let log = CombatLog::default();
    assert!(log.messages.is_empty());
}

#[test]
fn combat_log_push_adds_message() {
    let mut log = CombatLog::default();
    log.push("Hello".into());
    assert_eq!(log.messages.len(), 1);
    assert_eq!(log.messages[0], "Hello");
}

#[test]
fn combat_log_push_multiple_preserves_order() {
    let mut log = CombatLog::default();
    log.push("First".into());
    log.push("Second".into());
    log.push("Third".into());
    let msgs: Vec<&str> = log.messages.iter().map(|s| s.as_str()).collect();
    assert_eq!(msgs, vec!["First", "Second", "Third"]);
}

#[test]
fn combat_log_rolling_window_trims_oldest() {
    let mut log = CombatLog::default();
    for i in 0..60 {
        log.push(format!("msg-{i}"));
    }
    assert_eq!(log.messages.len(), MAX_COMBAT_LOG_MESSAGES);
    assert_eq!(log.messages[0], "msg-10");
    assert_eq!(log.messages[MAX_COMBAT_LOG_MESSAGES - 1], "msg-59");
}

#[test]
fn combat_log_recent_returns_last_n() {
    let mut log = CombatLog::default();
    log.push("A".into());
    log.push("B".into());
    log.push("C".into());
    log.push("D".into());
    let recent = log.recent(2);
    assert_eq!(recent, vec!["C", "D"]);
}

#[test]
fn combat_log_recent_more_than_available() {
    let mut log = CombatLog::default();
    log.push("Only".into());
    let recent = log.recent(10);
    assert_eq!(recent, vec!["Only"]);
}

#[test]
fn combat_log_recent_zero() {
    let mut log = CombatLog::default();
    log.push("Something".into());
    let recent = log.recent(0);
    assert!(recent.is_empty());
}

#[test]
fn combat_log_recent_on_empty() {
    let log = CombatLog::default();
    let recent = log.recent(5);
    assert!(recent.is_empty());
}

#[test]
fn spatial_index_default_empty() {
    let index = SpatialIndex::default();
    assert!(index.cells.is_empty());
}

#[test]
fn spatial_index_entities_at_empty_tile() {
    let index = SpatialIndex::default();
    let point = GridVec::new(5, 5);
    assert!(index.entities_at(&point).is_empty());
}

#[test]
fn spatial_index_entities_at_populated_tile() {
    let mut index = SpatialIndex::default();
    let point = GridVec::new(3, 7);
    let entity = EntityId(42);
    index.add_entity(point, entity);
    let result = index.entities_at(&point);
    assert_eq!(result.len(), 1);
    assert_eq!(result[0], entity);
}

#[test]
fn spatial_index_multiple_entities_at_same_tile() {
    let mut index = SpatialIndex::default();
    let point = GridVec::new(0, 0);
    let e1 = EntityId(1);
    let e2 = EntityId(2);
    index.add_entity(point, e1);
    index.add_entity(point, e2);
    let result = index.entities_at(&point);
    assert_eq!(result.len(), 2);
    assert!(result.contains(&e1));
    assert!(result.contains(&e2));
}

#[test]
fn spatial_index_remove_entity() {
    let mut index = SpatialIndex::default();
    let point = GridVec::new(5, 5);
    let e1 = EntityId(10);
    let e2 = EntityId(20);
    index.add_entity(point, e1);
    index.add_entity(point, e2);
    assert_eq!(index.entities_at(&point).len(), 2);
    index.remove_entity(&point, e1);
    let result = index.entities_at(&point);
    assert_eq!(result.len(), 1);
    assert_eq!(result[0], e2);
}

#[test]
fn spatial_index_remove_entity_from_empty_tile() {
    let mut index = SpatialIndex::default();
    let point = GridVec::new(1, 1);
    let entity = EntityId(42);
    index.remove_entity(&point, entity);
    assert!(index.entities_at(&point).is_empty());
}

#[test]
fn spatial_index_add_entity() {
    let mut index = SpatialIndex::default();
    let point = GridVec::new(7, 3);
    let entity = EntityId(99);
    index.add_entity(point, entity);
    let result = index.entities_at(&point);
    assert_eq!(result.len(), 1);
    assert_eq!(result[0], entity);
}

#[test]
fn spatial_index_move_entity_atomicity() {
    let mut index = SpatialIndex::default();
    let old = GridVec::new(0, 0);
    let new = GridVec::new(1, 0);
    let entity = EntityId(50);
    index.add_entity(old, entity);
    assert_eq!(index.entities_at(&old).len(), 1);
    index.move_entity(&old, new, entity);
    assert!(index.entities_at(&old).is_empty());
    assert_eq!(index.entities_at(&new).len(), 1);
    assert_eq!(index.entities_at(&new)[0], entity);
}

#[test]
fn collectibles_default_has_starting_supplies() {
    let c = Collectibles::default();
    assert_eq!(c.caps, 10);
    assert_eq!(c.bullets_31, 10);
    assert_eq!(c.bullets_36, 0);
    assert_eq!(c.bullets_44, 0);
    assert_eq!(c.powder, 10);
}

#[test]
fn cursor_blink_visible_toggles() {
    let mut cursor = CursorPosition::at(GridVec::new(0, 0));
    assert!(cursor.blink_visible());
    for _ in 0..24 {
        cursor.tick_blink();
    }
    assert!(!cursor.blink_visible());
    for _ in 0..24 {
        cursor.tick_blink();
    }
    assert!(cursor.blink_visible());
}
