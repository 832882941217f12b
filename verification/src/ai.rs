//! NPC decision helpers: faction hostility, threat scoring, awareness,
//! look-direction control, aiming style selection, weighted A* path
//! finding and Dijkstra distance maps.
use vstd::prelude::*;

use crate::components::{AiLookDir, AiPursuitBoost, AimingStyle, EntityId, Faction, Health, ItemKind};
use crate::grid_vec::{
    dir8, dir8_index, king_step_spec, rot45_spec, CoordinateUnit, GridVec,
};

verus! {

/// Base movement cost for a normal, safe tile.
pub const COST_BASE: i32 = 10;

/// Absolute hit-point threshold below which an NPC considers fleeing.
pub const FLEE_HP_ABSOLUTE: i32 = 20;

/// Turns of no sighting before each point of pursuit boost decays.
pub const PURSUIT_BOOST_DECAY_TURNS: u32 = 3;

/// Extra awareness range granted during active pursuit.
pub const PURSUIT_AWARENESS_BOOST: i32 = 8;

/// Number of 45 degree steps in a full circular look-around.
pub const FULL_ROTATION_STEPS: u8 = 8;

/// Knuth multiplicative hash constant used to pick an aiming style.
pub const HASH_KNUTH: u64 = 2654435761;

/// Two factions are hostile exactly when they differ: every faction fights
/// every other, members of one faction cooperate.
pub fn factions_are_hostile(a: Faction, b: Faction) -> (r: bool)
    ensures
        r == (a != b),
{
    a != b
}

/// Whether an NPC with the given health should consider fleeing: below
/// the absolute threshold (never without a health pool).
pub fn should_flee(health: Option<&Health>) -> (r: bool)
    ensures
        r == match health {
            Some(h) => h.current < FLEE_HP_ABSOLUTE,
            None => false,
        },
{
    match health {
        Some(hp) => hp.current < FLEE_HP_ABSOLUTE,
        None => false,
    }
}

/// Threat priority of a visible hostile at the given distance: closer is
/// higher, `3 * max(40 - distance, 0)`.
pub open spec fn threat_spec(distance: int) -> int {
    if 40 - distance > 0 { (40 - distance) * 3 } else { 0 }
}

/// Closer targets always outscore distant ones: within 40 tiles a nearer
/// hostile scores strictly higher, and no farther hostile ever scores
/// higher.
pub proof fn law_closer_outscores(d1: int, d2: int)
    requires
        d1 <= d2,
    ensures
        threat_spec(d1) >= threat_spec(d2),
        d1 < d2 && d1 < 40 ==> threat_spec(d1) > threat_spec(d2),
{
}

/// Threat priority score for a visible hostile target.
pub fn threat_score(distance: i32) -> (r: i32)
    requires
        threat_spec(distance as int) <= i32::MAX,
    ensures
        r == threat_spec(distance as int),
{
    let d: i64 = 40 - distance as i64;
    if d > 0 {
        (d * 3) as i32
    } else {
        0
    }
}

/// The pursuit boost still in effect: the extra range less one point per
/// `PURSUIT_BOOST_DECAY_TURNS` turns unseen, never negative.
pub open spec fn boost_left(boost: Option<AiPursuitBoost>, current_turn: u32) -> int {
    match boost {
        Some(pb) => {
            let unseen: int = if current_turn < pb.last_spotted_turn { 0 } else { current_turn - pb.last_spotted_turn };
            let decay = unseen / (PURSUIT_BOOST_DECAY_TURNS as int);
            if pb.extra_range - decay > 0 { pb.extra_range - decay } else { 0 }
        },
        None => 0,
    }
}

/// The effective awareness range: the base range plus any pursuit boost
/// still in effect.
pub fn effective_awareness_range(base_range: i32, pursuit_boost: Option<&AiPursuitBoost>, current_turn: u32) -> (r: i32)
    requires
        i32::MIN <= base_range + boost_left(
            match pursuit_boost {
                Some(b) => Some(*b),
                None => None,
            },
            current_turn,
        ) <= i32::MAX,
    ensures
        r == base_range + boost_left(
            match pursuit_boost {
                Some(b) => Some(*b),
                None => None,
            },
            current_turn,
        ),
{
    let boost = match pursuit_boost {
        Some(pb) => {
            let unseen = current_turn.saturating_sub(pb.last_spotted_turn);
            let decay = (unseen / PURSUIT_BOOST_DECAY_TURNS) as i64;
            let left = pb.extra_range as i64 - decay;
            if left > 0 { left as i32 } else { 0 }
        },
        None => 0,
    };
    base_range + boost
}

/// Whether any item is a gun that is not fully loaded.
pub open spec fn any_unloaded_gun(kinds: Seq<ItemKind>) -> bool {
    exists|i: int| 0 <= i < kinds.len() && match #[trigger] kinds[i] {
        ItemKind::Gun { loaded, capacity, .. } => loaded < capacity,
        _ => false,
    }
}

/// Returns `true` if one of the carried items is a gun with room for more
/// rounds.
pub fn has_unloaded_gun(kinds: &[ItemKind]) -> (r: bool)
    ensures
        r == any_unloaded_gun(kinds@),
{
    let mut i: usize = 0;
    while i < kinds.len()
        invariant
            i <= kinds@.len(),
            forall|j: int| 0 <= j < i ==> match #[trigger] kinds@[j] {
                ItemKind::Gun { loaded, capacity, .. } => loaded >= capacity,
                _ => true,
            },
        decreases kinds@.len() - i,
    {
        match &kinds[i] {
            ItemKind::Gun { loaded, capacity, .. } => {
                if *loaded < *capacity {
                    return true;
                }
            },
            _ => {},
        }
        i = i + 1;
    }
    false
}

/// The aiming style an NPC adopts when it acquires a target on `turn`,
/// chosen by a multiplicative hash of its identity and the turn.
pub open spec fn aiming_style_spec(entity: EntityId, turn: u32) -> AimingStyle {
    let hash = vstd::wrapping::u64_specs::wrapping_mul(entity.0 ^ (turn as u64), HASH_KNUTH);
    if hash % 3 == 0 {
        AimingStyle::CarefulAim
    } else if hash % 3 == 1 {
        AimingStyle::SnapShot
    } else {
        AimingStyle::Suppression
    }
}

/// Picks the aiming style for an NPC that starts chasing on `turn`.
pub fn assign_aiming_style(entity: EntityId, turn: u32) -> (r: AimingStyle)
    ensures
        r == aiming_style_spec(entity, turn),
{
    let aim_hash = (entity.0 ^ turn as u64).wrapping_mul(HASH_KNUTH);
    let m = aim_hash % 3;
    if m == 0 {
        AimingStyle::CarefulAim
    } else if m == 1 {
        AimingStyle::SnapShot
    } else {
        AimingStyle::Suppression
    }
}

/// Points the NPC's look direction along `dir` (as a king step) and
/// cancels any circular look-around in progress.
pub fn update_look_dir(dir: GridVec, look: &mut AiLookDir)
    ensures
        final(look).0 == king_step_spec(dir),
        final(look).1 == 0,
{
    look.0 = dir.king_step();
    look.1 = 0;
}

/// Turns the look direction one 45 degree step clockwise and counts down
/// an active circular look-around.
pub fn rotate_look_dir(look: &mut AiLookDir)
    ensures
        final(look).0 == rot45_spec(old(look).0),
        final(look).1 == (if old(look).1 > 0 { old(look).1 - 1 } else { 0 }),
{
    look.0 = look.0.rotate_45_cw();
    look.1 = look.1.saturating_sub(1);
}

/// Starts a full 360 degree look-around: the NPC turns one step now and
/// keeps turning for the remaining steps before it moves again.
pub fn begin_circular_rotation(look: &mut AiLookDir)
    ensures
        final(look).0 == rot45_spec(old(look).0),
        final(look).1 == FULL_ROTATION_STEPS - 1,
{
    look.1 = FULL_ROTATION_STEPS;
    rotate_look_dir(look);
}

/// Whether the NPC is in the middle of a circular look-around.
pub fn is_rotating(look: &AiLookDir) -> (r: bool)
    ensures
        r == (look.1 > 0),
{
    look.1 > 0
}

/// `n` clockwise 45 degree turns.
pub open spec fn turned(d: GridVec, n: nat) -> GridVec
    decreases n,
{
    if n == 0 { d } else { rot45_spec(turned(d, (n - 1) as nat)) }
}

/// Turning `n` times from the `i`-th of the eight directions faces the
/// direction `n` places further clockwise.
pub proof fn lemma_turned_dir8(i: int, n: nat)
    requires
        0 <= i < 8,
    ensures
        turned(dir8(i), n) == dir8((i + n) % 8),
    decreases n,
{
    if n > 0 {
        lemma_turned_dir8(i, (n - 1) as nat);
        let j = (i + n - 1) % 8;
        assert(0 <= j < 8);
        assert(dir8_index(dir8(j)) == j);
        assert((j + 1) % 8 == (i + n) % 8);
    }
}

/// A circular look-around is a full turn: the eight 45 degree turns of a
/// look-around (one when it begins and one per turn while rotating) end
/// facing the starting direction, whichever of the eight it was.
pub proof fn law_full_rotation(i: int)
    requires
        0 <= i < 8,
    ensures
        turned(dir8(i), FULL_ROTATION_STEPS as nat) == dir8(i),
{
    lemma_turned_dir8(i, FULL_ROTATION_STEPS as nat);
    assert((i + 8) % 8 == i);
}

/// Euclidean division for a positive divisor (rounds toward negative
/// infinity).
pub(crate) fn div_euclid_pos(a: i32, b: i32) -> (q: i32)
    requires
        b > 0,
    ensures
        q == a as int / b as int,
{
    if a >= 0 {
        let q = (a as u32) / (b as u32);
        proof {
            vstd::arithmetic::div_mod::lemma_fundamental_div_mod(a as int, b as int);
            assert(q as int <= a as int) by (nonlinear_arith)
                requires
                    a as int == b as int * (a as int / b as int) + a as int % b as int,
                    q as int == a as int / b as int,
                    a as int % b as int >= 0,
                    b >= 1,
                    a >= 0,
            ;
        }
        q as i32
    } else {
        let na: u64 = (0i64 - a as i64) as u64;
        let bb: u64 = b as u64;
        let t: u64 = na + bb - 1;
        let q0: u64 = t / bb;
        let r0: u64 = t % bb;
        proof {
            vstd::arithmetic::div_mod::lemma_fundamental_div_mod(t as int, bb as int);
            assert(a as int == b as int * (-(q0 as int)) + (b - 1 - r0)) by (nonlinear_arith)
                requires
                    t as int == bb as int * q0 as int + r0 as int,
                    t == na + bb - 1,
                    na == -(a as int),
                    bb == b as int,
            ;
            vstd::arithmetic::div_mod::lemma_fundamental_div_mod_converse(
                a as int,
                b as int,
                -(q0 as int),
                b - 1 - r0,
            );
            assert(q0 as int <= na) by (nonlinear_arith)
                requires
                    t as int == bb as int * q0 as int + r0 as int,
                    t == na + bb - 1,
                    bb >= 1,
                    r0 >= 0,
                    na >= 1,
            ;
        }
        (0i64 - q0 as i64) as i32
    }
}

/// The scale that stretches a firing direction to about `range` tiles
/// along its dominant axis (at least 1).
pub open spec fn bullet_scale(dx: int, dy: int, range: int) -> int {
    let m = if (if dx < 0 { -dx } else { dx }) >= (if dy < 0 { -dy } else { dy }) {
        if dx < 0 { -dx } else { dx }
    } else {
        if dy < 0 { -dy } else { dy }
    };
    if range / m > 1 { range / m } else { 1 }
}

/// The bullet endpoint: the firing direction scaled so the line extends
/// about `range` tiles along the dominant axis, preserving the angle.
pub fn bullet_endpoint(origin: GridVec, dx: CoordinateUnit, dy: CoordinateUnit, range: CoordinateUnit) -> (r: GridVec)
    requires
        !(dx == 0 && dy == 0),
        dx > i32::MIN,
        dy > i32::MIN,
        i32::MIN <= dx * bullet_scale(dx as int, dy as int, range as int) <= i32::MAX,
        i32::MIN <= dy * bullet_scale(dx as int, dy as int, range as int) <= i32::MAX,
        i32::MIN <= origin.x + dx * bullet_scale(dx as int, dy as int, range as int) <= i32::MAX,
        i32::MIN <= origin.y + dy * bullet_scale(dx as int, dy as int, range as int) <= i32::MAX,
    ensures
        r.x == origin.x + dx * bullet_scale(dx as int, dy as int, range as int),
        r.y == origin.y + dy * bullet_scale(dx as int, dy as int, range as int),
{
    let ax = if dx < 0 { -dx } else { dx };
    let ay = if dy < 0 { -dy } else { dy };
    let max_comp = if ax >= ay { ax } else { ay };
    let q = div_euclid_pos(range, max_comp);
    let scale = if q > 1 { q } else { 1 };
    origin + GridVec::new(dx * scale, dy * scale)
}

} // verus!
