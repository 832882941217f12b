//! Intents and events exchanged between the turn's systems.
use vstd::prelude::*;

use crate::components::EntityId;

verus! {

/// A request to move `entity` by `(dx, dy)`.
#[derive(Clone, Copy, Debug, PartialEq, Eq, Structural)]
pub struct MoveIntent {
    pub entity: EntityId,
    pub dx: i32,
    pub dy: i32,
}

/// A melee attack by `attacker` on `target`.
#[derive(Clone, Copy, Debug, PartialEq, Eq, Structural)]
pub struct AttackIntent {
    pub attacker: EntityId,
    pub target: EntityId,
}

/// Damage to apply to `target`, dealt by `source` when known.
#[derive(Clone, Copy, Debug, PartialEq, Eq, Structural)]
pub struct DamageEvent {
    pub target: EntityId,
    pub amount: i32,
    pub source: Option<EntityId>,
}

} // verus!
