//! Per-turn game rules: what a move does, how melee damage and aggression
//! spread, what a fallen enemy drops, when the player has escaped, where
//! the camera looks, which sounds are flagged, and pending stamina costs.
use vstd::prelude::*;

use crate::components::{
    blunt_damage_of, blunt_field_is, item_name_of, law_blunt_damage_is_the_field, Caliber, CollectibleKind, CombatStats, EntityId, Faction, Health,
    ItemKind, Position, Stamina,
};
use crate::events::{DamageEvent, MoveIntent};
use crate::grid_vec::{add_fits, add_spec, chebyshev, gv, GridVec};
use crate::noise::{fraction_below, fraction_scaled, noise2d_spec, noise_below, noise_scaled};
use crate::resources::{
    contains_point, index_from_roll, roll_spec, stained, BloodMap, CursorPosition, DynamicRng, InputState,
    SpatialIndex, SOUND_RANGE,
};

verus! {

/// Health below which a moving entity leaves a blood trail.
pub const BLOOD_DRIP_THRESHOLD: i32 = 40;

/// Hit points lost per wound tick while wounded and moving.
pub const WOUND_DAMAGE_PER_TICK: i32 = 1;

/// Turns between wound damage ticks.
pub const WOUND_DAMAGE_INTERVAL: u32 = 5;

/// Radius around a struck target within which other NPCs react.
pub const AGGRO_RADIUS: i32 = 8;

/// Half of `s`, rounded toward zero.
pub open spec fn half_toward_zero(s: int) -> int {
    if s >= 0 {
        s / 2
    } else {
        -((-s) / 2)
    }
}

/// The camera position: midway between the player and the cursor
/// (each coordinate halved toward zero).
pub fn camera_center(player: GridVec, cursor: GridVec) -> (r: GridVec)
    requires
        i32::MIN < player.x + cursor.x <= i32::MAX,
        i32::MIN < player.y + cursor.y <= i32::MAX,
    ensures
        r.x == half_toward_zero(player.x + cursor.x),
        r.y == half_toward_zero(player.y + cursor.y),
{
    let sx = player.x + cursor.x;
    let sy = player.y + cursor.y;
    let hx = if sx >= 0 { sx / 2 } else { -((-sx) / 2) };
    let hy = if sy >= 0 { sy / 2 } else { -((-sy) / 2) };
    GridVec::new(hx, hy)
}

/// Whether a player standing at `pos` has reached the escape band along
/// any edge of a `width` by `height` map.
pub fn escaped_town(pos: GridVec, width: i32, height: i32) -> (r: bool)
    requires
        width >= i32::MIN + 2,
        height >= i32::MIN + 2,
    ensures
        r == (pos.x <= 1 || pos.y <= 1 || pos.x >= width - 2 || pos.y >= height - 2),
{
    pos.x <= 1 || pos.y <= 1 || pos.x >= width - 2 || pos.y >= height - 2
}

/// Resolves one move intent for the entity standing at `pos`. The move
/// happens when the target tile is passable (`tile_passable`, read from
/// the map) and no other blocking entity stands there
/// (`entity_blocked`). A moving entity below `BLOOD_DRIP_THRESHOLD` health
/// stains the tile it leaves; on every `WOUND_DAMAGE_INTERVAL`-th turn a
/// living, wounded entity loses `WOUND_DAMAGE_PER_TICK` health; the spatial
/// index follows the entity; and the cursor keeps its offset from the
/// player. Returns whether the entity moved.
pub fn resolve_move(
    intent: &MoveIntent,
    pos: &mut Position,
    health: &mut Option<Health>,
    is_dead: bool,
    is_player: bool,
    tile_passable: bool,
    entity_blocked: bool,
    turn: u32,
    spatial: &mut SpatialIndex,
    blood: &mut BloodMap,
    cursor: &mut CursorPosition,
) -> (moved: bool)
    requires
        old(spatial).wf(),
        add_fits(gv(old(pos).x as int, old(pos).y as int), gv(intent.dx as int, intent.dy as int)),
    ensures
        moved == (tile_passable && !entity_blocked),
        !moved ==> *final(pos) == *old(pos) && *final(health) == *old(health) && final(spatial).cells@
            == old(spatial).cells@ && final(blood).stains@ == old(blood).stains@ && *final(cursor) == *old(cursor),
        moved ==> ({
            let from = gv(old(pos).x as int, old(pos).y as int);
            let to = add_spec(from, gv(intent.dx as int, intent.dy as int));
            &&& final(pos).x == to.x && final(pos).y == to.y
            &&& final(spatial).wf()
            &&& from != to ==> final(spatial).at(from) == crate::resources::without_entity(
                old(spatial).at(from),
                intent.entity,
            )
            &&& final(spatial).at(to) == if from != to {
                old(spatial).at(to).push(intent.entity)
            } else {
                crate::resources::without_entity(old(spatial).at(to), intent.entity).push(intent.entity)
            }
            &&& forall|p: GridVec| p != from && p != to ==> #[trigger] final(spatial).at(p) == old(spatial).at(p)
            &&& final(cursor).position() == if is_player {
                gv(
                    vstd::wrapping::i32_specs::wrapping_add(old(cursor).position().x, intent.dx) as int,
                    vstd::wrapping::i32_specs::wrapping_add(old(cursor).position().y, intent.dy) as int,
                )
            } else {
                old(cursor).position()
            }
            &&& final(cursor).frame() == old(cursor).frame()
            &&& if (match *old(health) {
                Some(h) => h.current < BLOOD_DRIP_THRESHOLD,
                None => false,
            }) {
                stained(old(blood).stains@, final(blood).stains@, from, turn)
            } else {
                final(blood).stains@ == old(blood).stains@
            }
            &&& match (*old(health), *final(health)) {
                (Some(h0), Some(h1)) => h1.max == h0.max && h1.current == if turn % WOUND_DAMAGE_INTERVAL
                    == 0 && !is_dead && h0.current < h0.max && h0.current > 0 {
                    h0.current - WOUND_DAMAGE_PER_TICK
                } else {
                    h0.current as int
                },
                (None, None) => true,
                _ => false,
            }
        }),
{
    let target = pos.as_grid_vec() + GridVec::new(intent.dx, intent.dy);
    if !(tile_passable && !entity_blocked) {
        return false;
    }
    let old_pos = pos.as_grid_vec();
    match health {
        Some(hp) => {
            if hp.current < BLOOD_DRIP_THRESHOLD {
                blood.stain(old_pos, turn);
            }
            if turn % WOUND_DAMAGE_INTERVAL == 0 && !is_dead && hp.current < hp.max && hp.current > 0 {
                hp.apply_damage(WOUND_DAMAGE_PER_TICK);
            }
        },
        None => {},
    }
    let delta = GridVec::new(intent.dx, intent.dy);
    pos.x = target.x;
    pos.y = target.y;
    spatial.move_entity(&old_pos, target, intent.entity);
    if is_player {
        cursor.shift_by(delta);
    }
    true
}

/// Applies a damage event to the target's health, unless god mode shields
/// the player. Returns whether the damage was applied (and the source,
/// if any, is to be recorded as the last attacker).
pub fn apply_damage_event(event: &DamageEvent, health: &mut Health, target_is_player: bool, god_mode: bool) -> (applied: bool)
    ensures
        applied == !(god_mode && target_is_player),
        applied ==> final(health).current == old(health).current - crate::components::damage_dealt(
            old(health).current as int,
            event.amount as int,
        ) && final(health).max == old(health).max,
        applied ==> crate::components::damage_law(
            old(health).current as int,
            event.amount as int,
            old(health).current - final(health).current,
        ),
        !applied ==> *final(health) == *old(health),
{
    if god_mode && target_is_player {
        return false;
    }
    health.apply_damage(event.amount);
    true
}

/// The blunt bonus an attacker gets from the item picked out of its
/// inventory (`kinds[index]`): that item's blunt damage when positive.
pub open spec fn melee_bonus(kinds: Seq<Option<ItemKind>>, index: int) -> int {
    if 0 <= index < kinds.len() {
        match kinds[index] {
            Some(k) => if blunt_damage_of(k) > 0 {
                blunt_damage_of(k) as int
            } else {
                0
            },
            None => 0,
        }
    } else {
        0
    }
}

/// A melee attack whose picked item has blunt damage `b` (its
/// `blunt_damage` field, for any kind of item) gets a bonus of `b` when
/// `b` is positive, and none otherwise.
pub proof fn law_melee_bonus_is_blunt_field(kinds: Seq<Option<ItemKind>>, index: int, k: ItemKind, b: i32)
    requires
        0 <= index < kinds.len(),
        kinds[index] == Some(k),
        blunt_field_is(k, b),
    ensures
        melee_bonus(kinds, index) == if b > 0 { b as int } else { 0 },
{
    law_blunt_damage_is_the_field(k);
}

/// Melee damage of a bump attack: the attacker's base damage plus the
/// blunt bonus of one inventory item picked by the turn's random roll
/// (keyed by the attacker's identity). `kinds` are the attacker's
/// inventory items, `None` for an item without a kind. Returns the damage
/// and the name of the item that added a bonus, if any.
pub fn melee_damage(
    stats: &CombatStats,
    kinds: &[Option<ItemKind>],
    rng: &DynamicRng,
    map_seed: u64,
    attacker: EntityId,
) -> (r: (i32, Option<String>))
    requires
        forall|i: int|
            0 <= i < kinds@.len() ==> match #[trigger] kinds@[i] {
                Some(k) => blunt_damage_of(k) <= 0x7FFF_FFFF - (if stats.attack < 0 { 0 } else { stats.attack as int }),
                None => true,
            },
    ensures
        ({
            let base: int = if stats.attack < 0 { 0 } else { stats.attack as int };
            let index = index_from_roll(roll_spec(map_seed, rng.tick, attacker.0 ^ 0xB1A7u64), kinds@.len() as int);
            let bonus = melee_bonus(kinds@, index);
            &&& r.0 == base + if kinds@.len() > 0 { bonus } else { 0 }
            &&& forall|k: ItemKind, b: i32|
                kinds@.len() > 0 && kinds@[index] == Some(k) && #[trigger] blunt_field_is(k, b) ==> r.0 == base + if b > 0 {
                    b as int
                } else {
                    0
                }
            &&& match r.1 {
                Some(name) => {
                    &&& kinds@.len() > 0
                    &&& bonus > 0
                    &&& kinds@[index] matches Some(k) && name@ == item_name_of(k)
                },
                None => kinds@.len() == 0 || bonus == 0,
            }
        }),
{
    let base = stats.damage_against();
    let mut bonus: i32 = 0;
    let mut bonus_name: Option<String> = None;
    if kinds.len() > 0 {
        let idx = rng.random_index(map_seed, attacker.0 ^ 0xB1A7u64, kinds.len());
        match &kinds[idx] {
            Some(kind) => {
                let bd = kind.blunt_damage();
                if bd > 0 {
                    bonus = bd;
                    bonus_name = Some(kind.display_name());
                }
            },
            None => {},
        }
    }
    (base + bonus, bonus_name)
}

/// How an NPC near a struck target reacts.
#[derive(Clone, Copy, Debug, PartialEq, Eq, Structural)]
pub enum AggroReaction {
    /// Sides with the target: becomes hostile.
    TurnHostile,
    /// Another faction's fight: runs away.
    Flee,
}

/// The reaction of the NPC `nearby` (at `nearby_pos`, of faction
/// `nearby_faction`) when `attacker` strikes `target` standing at
/// `target_pos` (of faction `target_faction`): NPCs other than the two
/// fighters within `AGGRO_RADIUS` of the target turn hostile when they share
/// the target's faction and flee otherwise; NPCs without a faction, further
/// away, or fighting themselves do not react.
pub fn aggro_reaction(
    nearby: EntityId,
    nearby_pos: GridVec,
    nearby_faction: Option<Faction>,
    attacker: EntityId,
    target: EntityId,
    target_pos: GridVec,
    target_faction: Option<Faction>,
) -> (r: Option<AggroReaction>)
    requires
        crate::grid_vec::abs_int(nearby_pos.x - target_pos.x) <= i32::MAX,
        crate::grid_vec::abs_int(nearby_pos.y - target_pos.y) <= i32::MAX,
    ensures
        r == if nearby == target || nearby == attacker || chebyshev(nearby_pos, target_pos) > AGGRO_RADIUS {
            None
        } else {
            match nearby_faction {
                Some(nf) => if target_faction == Some(nf) {
                    Some(AggroReaction::TurnHostile)
                } else {
                    Some(AggroReaction::Flee)
                },
                None => None,
            }
        },
{
    if nearby == target || nearby == attacker {
        return None;
    }
    if nearby_pos.chebyshev_distance(target_pos) > AGGRO_RADIUS {
        return None;
    }
    match nearby_faction {
        Some(nf) => {
            let same = match target_faction {
                Some(tf) => tf == nf,
                None => false,
            };
            if same {
                Some(AggroReaction::TurnHostile)
            } else {
                Some(AggroReaction::Flee)
            }
        },
        None => None,
    }
}

/// The bullets of caliber `c` (`.36` when the fallen NPC had no gun).
pub open spec fn ammo_of(c: Option<Caliber>, amount: i32) -> CollectibleKind {
    match c {
        Some(Caliber::Cal31) => CollectibleKind::Bullets31(amount),
        Some(Caliber::Cal36) => CollectibleKind::Bullets36(amount),
        Some(Caliber::Cal44) => CollectibleKind::Bullets44(amount),
        Some(Caliber::Cal50) => CollectibleKind::Bullets50(amount),
        Some(Caliber::Cal58) => CollectibleKind::Bullets58(amount),
        Some(Caliber::Cal577) => CollectibleKind::Bullets577(amount),
        Some(Caliber::Cal69) => CollectibleKind::Bullets69(amount),
        None => CollectibleKind::Bullets36(amount),
    }
}

/// An amount scaled from a noise hash, at least 1.
pub open spec fn drop_amount(h: u32, k: int) -> i32 {
    if fraction_scaled(h, k) < 1 {
        1
    } else {
        fraction_scaled(h, k) as i32
    }
}

/// The supplies a fallen NPC at `p` drops, decided by noise keyed by the
/// position, the kill count and the map seed: caps (half the time, 1 to
/// 10), powder (two times in five, 1 to 4) and bullets of the caliber of
/// its gun (two times in five, 1 to 6).
pub open spec fn loot_spec(p: GridVec, kills: i32, seed: u64, gun: Option<Caliber>) -> (
    Option<CollectibleKind>,
    Option<CollectibleKind>,
    Option<CollectibleKind>,
) {
    let wadd = |a: i32, b: int| vstd::wrapping::i32_specs::wrapping_add(a, b as i32);
    let hc = noise2d_spec(wadd(p.x, kills + 1), p.y, vstd::wrapping::u64_specs::wrapping_add(seed, 33333));
    let hp = noise2d_spec(wadd(p.x, kills + 2), p.y, vstd::wrapping::u64_specs::wrapping_add(seed, 55555));
    let ha = noise2d_spec(wadd(p.y, kills + 1), p.x, vstd::wrapping::u64_specs::wrapping_add(seed, 44444));
    (
        if fraction_below(hc, 1, 2) {
            Some(CollectibleKind::Caps(drop_amount(hc, 20)))
        } else {
            None
        },
        if fraction_below(hp, 2, 5) {
            Some(CollectibleKind::Powder(drop_amount(hp, 10)))
        } else {
            None
        },
        if fraction_below(ha, 2, 5) {
            Some(ammo_of(gun, drop_amount(ha, 15)))
        } else {
            None
        },
    )
}

/// `k` is a pack of bullets of caliber `c`.
pub open spec fn bullets_of_caliber(k: CollectibleKind, c: Caliber) -> bool {
    ||| k is Bullets31 && c == Caliber::Cal31
    ||| k is Bullets36 && c == Caliber::Cal36
    ||| k is Bullets44 && c == Caliber::Cal44
    ||| k is Bullets50 && c == Caliber::Cal50
    ||| k is Bullets58 && c == Caliber::Cal58
    ||| k is Bullets577 && c == Caliber::Cal577
    ||| k is Bullets69 && c == Caliber::Cal69
}

/// The caliber of the bullets a fallen NPC drops: that of its gun, .36
/// when it carried none.
pub open spec fn dropped_caliber(gun: Option<Caliber>) -> Caliber {
    match gun {
        Some(c) => c,
        None => Caliber::Cal36,
    }
}

/// The size of a pack of supplies.
pub open spec fn pack_size(k: CollectibleKind) -> int {
    match k {
        CollectibleKind::Caps(n) => n as int,
        CollectibleKind::Bullets31(n) => n as int,
        CollectibleKind::Bullets36(n) => n as int,
        CollectibleKind::Bullets44(n) => n as int,
        CollectibleKind::Bullets50(n) => n as int,
        CollectibleKind::Bullets58(n) => n as int,
        CollectibleKind::Bullets577(n) => n as int,
        CollectibleKind::Bullets69(n) => n as int,
        CollectibleKind::Powder(n) => n as int,
    }
}

/// A quotient by `u32::MAX` of a value under `b + 1` of them is at most
/// `b`.
proof fn lemma_quotient_below(x: int, b: int)
    requires
        0 <= x < (b + 1) * 0xFFFF_FFFF,
        0 <= b,
    ensures
        0 <= x / 0xFFFF_FFFF <= b,
{
    assert(0 <= x / 0xFFFF_FFFF <= b) by (nonlinear_arith)
        requires
            0 <= x < (b + 1) * 0xFFFF_FFFF,
            0 <= b,
    ;
}

/// What a fallen NPC drops is of the right sort and size: caps first (1
/// to 10), powder second (1 to 4), and bullets third (1 to 6), of the
/// caliber of its gun (.36 without one).
pub proof fn law_loot_sorts_and_caliber(p: GridVec, kills: i32, seed: u64, gun: Option<Caliber>)
    ensures
        ({
            let r = loot_spec(p, kills, seed, gun);
            &&& r.0 matches Some(k) ==> k is Caps && 1 <= pack_size(k) <= 10
            &&& r.1 matches Some(k) ==> k is Powder && 1 <= pack_size(k) <= 4
            &&& r.2 matches Some(k) ==> bullets_of_caliber(k, dropped_caliber(gun)) && 1 <= pack_size(k) <= 6
        }),
{
    let wadd = |a: i32, b: int| vstd::wrapping::i32_specs::wrapping_add(a, b as i32);
    let hc = noise2d_spec(wadd(p.x, kills + 1), p.y, vstd::wrapping::u64_specs::wrapping_add(seed, 33333));
    let hp = noise2d_spec(wadd(p.x, kills + 2), p.y, vstd::wrapping::u64_specs::wrapping_add(seed, 55555));
    let ha = noise2d_spec(wadd(p.y, kills + 1), p.x, vstd::wrapping::u64_specs::wrapping_add(seed, 44444));
    if fraction_below(hc, 1, 2) {
        lemma_quotient_below(hc * 20, 9);
    }
    if fraction_below(hp, 2, 5) {
        lemma_quotient_below(hp * 10, 3);
    }
    if fraction_below(ha, 2, 5) {
        lemma_quotient_below(ha * 15, 5);
    }
}

/// The supplies a fallen, looted NPC at `p` drops: caps, powder and
/// bullets (each possibly absent). `kills` is the kill count (as a signed
/// offset) and `gun` the caliber of the first gun it carried.
pub fn loot_drops(p: GridVec, kills: i32, seed: u64, gun: Option<Caliber>) -> (r: (
    Option<CollectibleKind>,
    Option<CollectibleKind>,
    Option<CollectibleKind>,
))
    requires
        kills + 2 <= i32::MAX,
    ensures
        r == loot_spec(p, kills, seed, gun),
        r.0 matches Some(k) ==> k is Caps && 1 <= pack_size(k) <= 10,
        r.1 matches Some(k) ==> k is Powder && 1 <= pack_size(k) <= 4,
        r.2 matches Some(k) ==> bullets_of_caliber(k, dropped_caliber(gun)) && 1 <= pack_size(k) <= 6,
{
    proof {
        law_loot_sorts_and_caliber(p, kills, seed, gun);
    }
    let cx = p.x.wrapping_add(kills + 1);
    let caps = if noise_below(cx, p.y, seed.wrapping_add(33333), 1, 2) {
        let a = noise_scaled(cx, p.y, seed.wrapping_add(33333), 20);
        Some(CollectibleKind::Caps(if a < 1 { 1 } else { a }))
    } else {
        None
    };
    let px = p.x.wrapping_add(kills + 2);
    let powder = if noise_below(px, p.y, seed.wrapping_add(55555), 2, 5) {
        let a = noise_scaled(px, p.y, seed.wrapping_add(55555), 10);
        Some(CollectibleKind::Powder(if a < 1 { 1 } else { a }))
    } else {
        None
    };
    let ay = p.y.wrapping_add(kills + 1);
    let ammo = if noise_below(ay, p.x, seed.wrapping_add(44444), 2, 5) {
        let a = noise_scaled(ay, p.x, seed.wrapping_add(44444), 15);
        let amount = if a < 1 { 1 } else { a };
        Some(match gun {
            Some(Caliber::Cal31) => CollectibleKind::Bullets31(amount),
            Some(Caliber::Cal36) => CollectibleKind::Bullets36(amount),
            Some(Caliber::Cal44) => CollectibleKind::Bullets44(amount),
            Some(Caliber::Cal50) => CollectibleKind::Bullets50(amount),
            Some(Caliber::Cal58) => CollectibleKind::Bullets58(amount),
            Some(Caliber::Cal577) => CollectibleKind::Bullets577(amount),
            Some(Caliber::Cal69) => CollectibleKind::Bullets69(amount),
            None => CollectibleKind::Bullets36(amount),
        })
    } else {
        None
    };
    (caps, powder, ammo)
}

/// Whether a sound at `event` is flagged for the player at `player`:
/// within `SOUND_RANGE`, out of sight, on a tile seen before.
pub open spec fn flagged_sound(player: GridVec, event: GridVec, visible: Seq<GridVec>, revealed: Seq<GridVec>) -> bool {
    chebyshev(player, event) <= SOUND_RANGE && !visible.contains(event) && revealed.contains(event)
}

/// The positions of sound events to flag for the player, in event order.
pub fn sound_indicators(
    player: GridVec,
    events: &[(GridVec, u32)],
    visible: &[GridVec],
    revealed: &[GridVec],
) -> (r: Vec<GridVec>)
    requires
        forall|i: int|
            0 <= i < events@.len() ==> crate::grid_vec::abs_int(player.x - (#[trigger] events@[i]).0.x)
                <= i32::MAX && crate::grid_vec::abs_int(player.y - events@[i].0.y) <= i32::MAX,
    ensures
        r@ == events@.filter_map(
            |e: (GridVec, u32)|
                if flagged_sound(player, e.0, visible@, revealed@) {
                    Some(e.0)
                } else {
                    None
                },
        ),
{
    let ghost f = |e: (GridVec, u32)|
        if flagged_sound(player, e.0, visible@, revealed@) {
            Some(e.0)
        } else {
            None
        };
    let mut out: Vec<GridVec> = Vec::new();
    let mut i: usize = 0;
    while i < events.len()
        invariant
            i <= events@.len(),
            f == (|e: (GridVec, u32)|
                if flagged_sound(player, e.0, visible@, revealed@) {
                    Some(e.0)
                } else {
                    None
                }),
            forall|j: int|
                0 <= j < events@.len() ==> crate::grid_vec::abs_int(player.x - (#[trigger] events@[j]).0.x)
                    <= i32::MAX && crate::grid_vec::abs_int(player.y - events@[j].0.y) <= i32::MAX,
            out@ == events@.take(i as int).filter_map(f),
        decreases events@.len() - i,
    {
        proof {
            assert(events@.take(i + 1).drop_last() =~= events@.take(i as int));
            assert(events@.take(i + 1).last() == events@[i as int]);
        }
        let (ev, _) = events[i];
        let in_range = player.chebyshev_distance(ev) <= SOUND_RANGE;
        if in_range && !contains_point(visible, ev) && contains_point(revealed, ev) {
            out.push(ev);
        }
        i = i + 1;
    }
    proof {
        assert(events@.take(events@.len() as int) =~= events@);
    }
    out
}

/// Charges the player's pending dive and ability stamina costs (each is
/// spent only if affordable) and clears them.
pub fn consume_pending_stamina(input: &mut InputState, stamina: &mut Option<Stamina>)
    ensures
        final(input).dive_stamina_pending == (if old(input).dive_stamina_pending > 0 { 0 } else { old(input).dive_stamina_pending }),
        final(input).ability_stamina_pending == (if old(input).ability_stamina_pending > 0 { 0 } else { old(input).ability_stamina_pending }),
        final(input).mode == old(input).mode,
        match (*old(stamina), *final(stamina)) {
            (Some(s0), Some(s2)) => {
                let dive = old(input).dive_stamina_pending;
                let ability = old(input).ability_stamina_pending;
                let s1: int = if dive > 0 && s0.current >= dive { s0.current - dive } else { s0.current as int };
                &&& s2.max == s0.max
                &&& s2.current == if ability > 0 && s1 >= ability { s1 - ability } else { s1 }
            },
            (None, None) => true,
            _ => false,
        },
{
    if input.dive_stamina_pending > 0 {
        match stamina {
            Some(s) => {
                s.spend(input.dive_stamina_pending);
            },
            None => {},
        }
        input.dive_stamina_pending = 0;
    }
    if input.ability_stamina_pending > 0 {
        match stamina {
            Some(s) => {
                s.spend(input.ability_stamina_pending);
            },
            None => {},
        }
        input.ability_stamina_pending = 0;
    }
}

} // verus!
