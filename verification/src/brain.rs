//! The NPC behaviour state machine: from an NPC's state and what it
//! perceives at the start of its turn, the state it ends the turn in and
//! the kind of action it takes. Finding the percepts (threat scoring,
//! memory, items, fire, projectiles) and carrying out the action (moving,
//! shooting, reloading) are done around it.
use vstd::prelude::*;

use crate::components::AiState;
use crate::grid_vec::GridVec;

verus! {

/// What an NPC perceives at the start of its turn, as far as its state
/// machine reads it.
#[derive(Clone, Copy, Debug, PartialEq, Eq, Structural)]
pub struct AiPercept {
    /// The player is alive (a dead player is no longer pursued).
    pub player_alive: bool,
    /// A hostile within the proximity override range, if any.
    pub proximity_target: Option<GridVec>,
    /// Health is below half and a drink to heal with is carried.
    pub can_heal: bool,
    /// The sidestep away from a nearby projectile, when dodging this turn.
    pub dodge_step: Option<GridVec>,
    /// The step away from adjacent fire, when fire is adjacent.
    pub fire_step: Option<GridVec>,
    /// Health is critical and no healing is available.
    pub should_flee: bool,
    /// The target chosen by threat scoring this turn.
    pub chase_target: Option<GridVec>,
    /// A carried gun is not fully loaded.
    pub can_reload: bool,
    /// Every carried gun is empty and one of them can be reloaded.
    pub all_guns_empty: bool,
    /// A remembered target position, still fresh and not where the NPC
    /// stands.
    pub memory_target: Option<GridVec>,
    /// The nearest visible item on the floor.
    pub nearest_item: Option<GridVec>,
    /// A circular look-around is in progress.
    pub rotating: bool,
    /// This turn starts a periodic look-around.
    pub look_around_due: bool,
    /// A patrolling NPC pauses this turn.
    pub patrol_pause: bool,
    /// The NPC has a patrol origin to return to.
    pub has_patrol_origin: bool,
    /// Where the threat to flee from is (the chase target, else the
    /// player), if known.
    pub threat_pos: Option<GridVec>,
    /// The last position of a persistent target not yet timed out.
    pub tracked_target: Option<GridVec>,
    /// The NPC stands on the tracked target's last position.
    pub at_tracked_target: bool,
    /// Search sweeps are left at the tracked target's last position.
    pub sweeps_left: bool,
}

/// The kind of action an NPC takes this turn.
#[derive(Clone, Copy, Debug, PartialEq, Eq, Structural)]
pub enum AiAct {
    /// Drink to heal.
    Heal,
    /// Sidestep a projectile.
    Dodge(GridVec),
    /// Step away from adjacent fire.
    EscapeFire(GridVec),
    /// Turn toward the newly seen target and start chasing it.
    BeginChase(GridVec),
    /// Reload a gun.
    Reload,
    /// Walk toward a remembered target position.
    PursueMemory(GridVec),
    /// Walk toward an item to pick it up.
    Scavenge(GridVec),
    /// Turn the look direction one step.
    Rotate,
    /// Start a full circular look-around.
    LookAround,
    /// Take a patrol step.
    Patrol,
    /// Flee from the threat.
    Flee(GridVec),
    /// Head back toward the patrol origin.
    ReturnHome,
    /// Fight the chased target.
    Engage(GridVec),
    /// Walk toward the tracked target's last position.
    Track(GridVec),
    /// Sweep the area at the tracked target's last position.
    SearchSweep,
    /// Give the pursuit up and forget the target.
    GiveUp,
}

/// The state an NPC settles in when it has nothing to pursue.
pub open spec fn resting_state(p: AiPercept) -> AiState {
    if p.has_patrol_origin { AiState::Patrolling } else { AiState::Idle }
}

/// The state after the overrides that precede acting: a dead player is
/// not chased, a hostile close by forces a chase, and critical health
/// forces flight (an NPC that recovers goes back to chasing its target,
/// or else to patrolling).
pub open spec fn settled_state(state: AiState, p: AiPercept) -> AiState {
    let s0 = if !p.player_alive && state == AiState::Chasing { AiState::Patrolling } else { state };
    let s1 = if p.proximity_target is Some { AiState::Chasing } else { s0 };
    if p.should_flee {
        AiState::Fleeing
    } else if s1 == AiState::Fleeing {
        if p.chase_target is Some { AiState::Chasing } else { AiState::Patrolling }
    } else {
        s1
    }
}

/// The state before the flight check, kept by the actions taken ahead of
/// it.
pub open spec fn early_state(state: AiState, p: AiPercept) -> AiState {
    let s0 = if !p.player_alive && state == AiState::Chasing { AiState::Patrolling } else { state };
    if p.proximity_target is Some { AiState::Chasing } else { s0 }
}

/// The turn of an NPC in state `state` perceiving `p`: healing, dodging
/// and escaping fire come first; then an idle or patrolling NPC starts
/// chasing a seen target, or reloads, pursues its memory, scavenges,
/// looks around or patrols; a fleeing NPC flees the threat or, with none
/// known, heads home and rests; a chasing NPC reloads empty guns, engages
/// its target, pursues its memory, tracks and sweeps for a persistent
/// target, and finally gives up and rests.
pub open spec fn ai_step_spec(state: AiState, p: AiPercept) -> (AiState, AiAct) {
    let early = early_state(state, p);
    if p.can_heal {
        (early, AiAct::Heal)
    } else if p.dodge_step is Some {
        (early, AiAct::Dodge(p.dodge_step->0))
    } else if p.fire_step is Some {
        (early, AiAct::EscapeFire(p.fire_step->0))
    } else {
        let s = settled_state(state, p);
        match s {
            AiState::Idle | AiState::Patrolling => {
                if p.chase_target is Some {
                    (AiState::Chasing, AiAct::BeginChase(p.chase_target->0))
                } else if p.can_reload {
                    (s, AiAct::Reload)
                } else if p.memory_target is Some {
                    (s, AiAct::PursueMemory(p.memory_target->0))
                } else if p.nearest_item is Some {
                    (s, AiAct::Scavenge(p.nearest_item->0))
                } else if p.rotating {
                    (s, AiAct::Rotate)
                } else if p.look_around_due {
                    (s, AiAct::LookAround)
                } else if s == AiState::Idle || p.patrol_pause {
                    (s, AiAct::Rotate)
                } else {
                    (s, AiAct::Patrol)
                }
            },
            AiState::Fleeing => {
                if p.threat_pos is Some {
                    (s, AiAct::Flee(p.threat_pos->0))
                } else {
                    (resting_state(p), AiAct::ReturnHome)
                }
            },
            AiState::Chasing => {
                if p.all_guns_empty {
                    (s, AiAct::Reload)
                } else if p.chase_target is Some {
                    (s, AiAct::Engage(p.chase_target->0))
                } else if p.memory_target is Some {
                    (s, AiAct::PursueMemory(p.memory_target->0))
                } else if p.tracked_target is Some && !p.at_tracked_target {
                    (s, AiAct::Track(p.tracked_target->0))
                } else if p.tracked_target is Some && p.rotating {
                    (s, AiAct::Rotate)
                } else if p.tracked_target is Some && p.sweeps_left {
                    (s, AiAct::SearchSweep)
                } else {
                    (resting_state(p), AiAct::GiveUp)
                }
            },
        }
    }
}

/// One turn of the NPC state machine (see `ai_step_spec`).
pub fn ai_step(state: AiState, p: &AiPercept) -> (r: (AiState, AiAct))
    ensures
        r == ai_step_spec(state, *p),
        chases_with_empty_guns(state, *p) ==> r == (AiState::Chasing, AiAct::Reload),
        turn_priorities(state, *p, r),
{
    let mut s = state;
    if !p.player_alive && s == AiState::Chasing {
        s = AiState::Patrolling;
    }
    if p.proximity_target.is_some() {
        s = AiState::Chasing;
    }
    if p.can_heal {
        return (s, AiAct::Heal);
    }
    if let Some(d) = p.dodge_step {
        return (s, AiAct::Dodge(d));
    }
    if let Some(d) = p.fire_step {
        return (s, AiAct::EscapeFire(d));
    }
    if p.should_flee {
        s = AiState::Fleeing;
    } else if s == AiState::Fleeing {
        s = if p.chase_target.is_some() { AiState::Chasing } else { AiState::Patrolling };
    }
    let rest = if p.has_patrol_origin { AiState::Patrolling } else { AiState::Idle };
    match s {
        AiState::Idle | AiState::Patrolling => {
            if let Some(t) = p.chase_target {
                (AiState::Chasing, AiAct::BeginChase(t))
            } else if p.can_reload {
                (s, AiAct::Reload)
            } else if let Some(m) = p.memory_target {
                (s, AiAct::PursueMemory(m))
            } else if let Some(i) = p.nearest_item {
                (s, AiAct::Scavenge(i))
            } else if p.rotating {
                (s, AiAct::Rotate)
            } else if p.look_around_due {
                (s, AiAct::LookAround)
            } else if s == AiState::Idle || p.patrol_pause {
                (s, AiAct::Rotate)
            } else {
                (s, AiAct::Patrol)
            }
        },
        AiState::Fleeing => {
            if let Some(t) = p.threat_pos {
                (s, AiAct::Flee(t))
            } else {
                (rest, AiAct::ReturnHome)
            }
        },
        AiState::Chasing => {
            if p.all_guns_empty {
                (s, AiAct::Reload)
            } else if let Some(t) = p.chase_target {
                (s, AiAct::Engage(t))
            } else if let Some(m) = p.memory_target {
                (s, AiAct::PursueMemory(m))
            } else if p.tracked_target.is_some() && !p.at_tracked_target {
                let t = p.tracked_target.unwrap();
                (s, AiAct::Track(t))
            } else if p.tracked_target.is_some() && p.rotating {
                (s, AiAct::Rotate)
            } else if p.tracked_target.is_some() && p.sweeps_left {
                (s, AiAct::SearchSweep)
            } else {
                (rest, AiAct::GiveUp)
            }
        },
    }
}

/// No override acts this turn: the NPC neither heals, dodges nor escapes
/// fire.
pub open spec fn no_override(p: AiPercept) -> bool {
    !p.can_heal && p.dodge_step is None && p.fire_step is None
}

/// The NPC acts this turn as a chaser whose guns are all empty: no
/// override acts, its health is not critical, its guns are all empty, and
/// it is chasing (a chaser while the player lives or a hostile is close,
/// anyone with a hostile close by, or a recovered fleer with a target).
pub open spec fn chases_with_empty_guns(state: AiState, p: AiPercept) -> bool {
    &&& no_override(p)
    &&& !p.should_flee
    &&& p.all_guns_empty
    &&& ((state == AiState::Chasing && p.player_alive) || p.proximity_target is Some || (state == AiState::Fleeing
        && p.chase_target is Some))
}

/// A chasing NPC with guns to fire: no override acts, its health is not
/// critical, not all its guns are empty, and it is chasing.
pub open spec fn chases_armed(state: AiState, p: AiPercept) -> bool {
    &&& no_override(p)
    &&& !p.should_flee
    &&& !p.all_guns_empty
    &&& ((state == AiState::Chasing && p.player_alive) || p.proximity_target is Some || (state == AiState::Fleeing
        && p.chase_target is Some))
}

/// A resting NPC (idle or patrolling) with nothing pressing: no override,
/// health not critical, no hostile close by and no target seen.
pub open spec fn resting_calm(state: AiState, p: AiPercept) -> bool {
    &&& no_override(p)
    &&& !p.should_flee
    &&& (state == AiState::Idle || state == AiState::Patrolling)
    &&& p.proximity_target is None
    &&& p.chase_target is None
}

/// The order in which a turn's concerns are served, as a relation between
/// the percept and the outcome `r`: healing, then dodging, then escaping
/// fire come before all else; a critically hurt NPC is in flight exactly
/// when a threat is known; a resting NPC reloads before pursuing its
/// memory, and pursues its memory before scavenging; an armed chaser
/// engages its target, and without one pursues its memory.
pub open spec fn turn_priorities(state: AiState, p: AiPercept, r: (AiState, AiAct)) -> bool {
    &&& p.can_heal ==> r.1 == AiAct::Heal
    &&& !p.can_heal && p.dodge_step is Some ==> r.1 == AiAct::Dodge(p.dodge_step->0)
    &&& !p.can_heal && p.dodge_step is None && p.fire_step is Some ==> r.1 == AiAct::EscapeFire(p.fire_step->0)
    &&& no_override(p) ==> (r.0 == AiState::Fleeing <==> p.should_flee && p.threat_pos is Some)
    &&& no_override(p) && p.should_flee && p.threat_pos is Some ==> r.1 == AiAct::Flee(p.threat_pos->0)
    &&& resting_calm(state, p) && p.can_reload ==> r == (state, AiAct::Reload)
    &&& resting_calm(state, p) && !p.can_reload && p.memory_target is Some ==> r == (
        state,
        AiAct::PursueMemory(p.memory_target->0),
    )
    &&& resting_calm(state, p) && !p.can_reload && p.memory_target is None && p.nearest_item is Some ==> r == (
        state,
        AiAct::Scavenge(p.nearest_item->0),
    )
    &&& chases_armed(state, p) && p.chase_target is Some ==> r == (AiState::Chasing, AiAct::Engage(p.chase_target->0))
    &&& chases_armed(state, p) && p.chase_target is None && p.memory_target is Some ==> r == (
        AiState::Chasing,
        AiAct::PursueMemory(p.memory_target->0),
    )
}

/// The priorities of a turn hold of the state machine.
pub proof fn law_turn_priorities(state: AiState, p: AiPercept)
    ensures
        turn_priorities(state, p, ai_step_spec(state, p)),
{
}

/// A chasing NPC whose guns are all empty reloads first, whatever its
/// target: it stays in the chase and its action is to reload.
pub proof fn law_empty_guns_reload_first(state: AiState, p: AiPercept)
    requires
        chases_with_empty_guns(state, p),
    ensures
        ai_step_spec(state, p) == (AiState::Chasing, AiAct::Reload),
{
}

/// An NPC whose health is critical flees a known threat, whatever its
/// state, unless healing, dodging or escaping fire comes first.
pub proof fn law_critical_health_flees(state: AiState, p: AiPercept)
    requires
        no_override(p),
        p.should_flee,
        p.threat_pos is Some,
    ensures
        ai_step_spec(state, p) == (AiState::Fleeing, AiAct::Flee(p.threat_pos->0)),
{
}

/// A hostile close by puts a healthy NPC with a target in the chase,
/// whatever its state.
pub proof fn law_proximity_forces_chase(state: AiState, p: AiPercept)
    requires
        p.proximity_target is Some,
        p.chase_target is Some,
        !p.should_flee,
    ensures
        ai_step_spec(state, p).0 == AiState::Chasing,
{
}

/// An idle or patrolling NPC that sees a target starts chasing it, unless
/// an override acts first or its health is critical.
pub proof fn law_seen_target_starts_chase(state: AiState, p: AiPercept)
    requires
        state == AiState::Idle || state == AiState::Patrolling,
        p.proximity_target is None,
        no_override(p),
        !p.should_flee,
        p.chase_target is Some,
    ensures
        ai_step_spec(state, p) == (AiState::Chasing, AiAct::BeginChase(p.chase_target->0)),
{
}

/// A chasing NPC with nothing left to pursue gives up and rests:
/// patrolling when it has a patrol origin, idle otherwise.
pub proof fn law_pursuit_exhausted_rests(p: AiPercept)
    requires
        no_override(p),
        !p.should_flee,
        p.player_alive || p.proximity_target is Some,
        !p.all_guns_empty,
        p.chase_target is None,
        p.memory_target is None,
        p.tracked_target is None,
    ensures
        ai_step_spec(AiState::Chasing, p) == (resting_state(p), AiAct::GiveUp),
{
}

/// Once the player is dead a chasing NPC stops chasing unless a hostile
/// is close by or it still has a target of its own.
pub proof fn law_dead_player_not_chased(p: AiPercept)
    requires
        !p.player_alive,
        p.proximity_target is None,
        p.chase_target is None,
    ensures
        ai_step_spec(AiState::Chasing, p).0 != AiState::Chasing,
{
}

/// A fleeing NPC that is no longer in critical health returns to the
/// chase when it has a target, and to patrolling otherwise.
pub proof fn law_recovered_npc_stops_fleeing(p: AiPercept)
    requires
        no_override(p),
        !p.should_flee,
        p.proximity_target is None,
    ensures
        ai_step_spec(AiState::Fleeing, p).0 != AiState::Fleeing,
        p.chase_target is Some ==> ai_step_spec(AiState::Fleeing, p).0 == AiState::Chasing,
{
}

} // verus!
