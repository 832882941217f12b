//! Projectiles in flight: a precomputed Bresenham path walked a few tiles
//! per turn. On each tile a projectile may be stopped by an impassable
//! tile, hit (or, for bullets, miss or headshot) the hostile entities
//! standing there, hit the player, or hit its own thrower.
//!
//! Bullet rolls use the exact noise fraction: the hit chance falls from
//! 49/50 by 1/50 per tile travelled, down to 7/20.
use vstd::prelude::*;

use crate::components::{EntityId, Faction, ProjectileVisual};
use crate::grid_vec::{abs_int, max_int, GridVec};
use crate::noise::{fraction_below, noise2d, noise2d_spec, wadd64};
use crate::rules::half_toward_zero;

verus! {

/// Bullet travel speed in tiles per game turn.
pub const BULLET_TILES_PER_TICK: usize = 12;
/// Shrapnel travel speed in tiles per turn.
pub const SHRAPNEL_TILES_PER_TICK: usize = 2;
/// Knife and tomahawk travel speed in tiles per turn.
pub const THROWN_TILES_PER_TICK: usize = 2;
/// Arrow travel speed in tiles per turn.
pub const ARROW_TILES_PER_TICK: usize = 3;
/// Maximum range of thrown knives and tomahawks.
pub const THROWN_RANGE: i32 = 12;
/// The thrower takes this fraction (one over it) of their own shrapnel.
pub const SELF_DAMAGE_DIVISOR: i32 = 2;
/// Fixed damage of one shrapnel fragment.
pub const SHRAPNEL_DAMAGE: i32 = 20;
/// Coordinate bound on projectile paths.
pub const MAX_PATH_COORD: i32 = 0x100_0000;
/// Bound on a path's length.
pub const MAX_PATH_LEN: usize = 0x10_0000;

/// A projectile following its path.
#[derive(Clone, Debug)]
pub struct Projectile {
    /// Path tiles, origin first.
    pub path: Vec<GridVec>,
    /// Current index along the path.
    pub path_index: usize,
    /// Tiles advanced per turn.
    pub tiles_per_tick: usize,
    /// Damage on hit.
    pub damage: i32,
    /// Remaining penetration power.
    pub penetration: i32,
    /// Entity that fired the projectile.
    pub source: EntityId,
    /// Previous tile, for drawing a trailing tail.
    pub tail_pos: Option<GridVec>,
    /// Drawing style.
    pub visual: ProjectileVisual,
    /// Whether this is a firearm bullet (with hit and headshot rolls).
    pub is_bullet: bool,
}

/// An entity a projectile can hit.
#[derive(Clone, Copy, Debug, PartialEq, Eq, Structural)]
pub struct ShotTarget {
    pub entity: EntityId,
    pub pos: GridVec,
    /// Maximum health (a headshot deals all of it).
    pub max_hp: i32,
    pub faction: Option<Faction>,
}

/// What happened on one tile of a projectile's flight.
#[derive(Clone, Copy, Debug, PartialEq, Eq, Structural)]
pub enum ShotEvent {
    /// Stopped by an impassable tile (a sound there).
    Blocked { at: GridVec },
    /// A bullet missed the target.
    Missed { target: EntityId, at: GridVec },
    /// A bullet's headshot: damage equal to the target's maximum health.
    Headshot { target: EntityId, amount: i32, at: GridVec },
    /// A hit for the given damage.
    Hit { target: EntityId, amount: i32, at: GridVec },
    /// The thrower's own shrapnel hit them.
    SelfHit { target: EntityId, amount: i32, at: GridVec },
}

/// Outcome of a bullet's rolls against one target.
#[derive(Clone, Copy, Debug, PartialEq, Eq, Structural)]
pub enum BulletHitResult {
    Miss,
    Headshot { damage: i32 },
    Hit { damage: i32 },
}

/// The bullet misses: its roll is above the hit chance, `(49 - d) / 50`
/// after `d` tiles, but never below `7 / 20`.
pub open spec fn bullet_misses(h: u32, d: int) -> bool {
    if d <= 31 {
        h * 50 > (49 - d) * 0xFFFF_FFFF
    } else {
        h * 20 > 7 * 0xFFFF_FFFF
    }
}

/// The headshot chance: 1/10 point blank, else 1/50.
pub open spec fn bullet_headshot(h: u32, d: int) -> bool {
    if d < 1 {
        fraction_below(h, 1, 10)
    } else {
        fraction_below(h, 1, 50)
    }
}

/// The bullet's rolls at `tile` after `d` tiles of travel.
pub open spec fn bullet_outcome(tile: GridVec, d: int, max_hp: i32, penetration: i32) -> BulletHitResult {
    let seed = wadd64(7919, d as u64);
    if bullet_misses(noise2d_spec(tile.x, (tile.y + d) as i32, seed), d) {
        BulletHitResult::Miss
    } else if bullet_headshot(noise2d_spec(tile.x, (tile.y + d) as i32, wadd64(seed, 13)), d) {
        BulletHitResult::Headshot { damage: max_hp }
    } else {
        BulletHitResult::Hit { damage: penetration }
    }
}

/// Resolves a bullet's hit, headshot and miss rolls against one target.
pub fn resolve_bullet_hit(tile: GridVec, path_index: usize, target_max_hp: i32, penetration: i32) -> (r: BulletHitResult)
    requires
        -MAX_PATH_COORD <= tile.y <= MAX_PATH_COORD,
        path_index <= MAX_PATH_LEN,
    ensures
        r == bullet_outcome(tile, path_index as int, target_max_hp, penetration),
{
    let d = path_index as u64;
    let seed = 7919u64.wrapping_add(d);
    let y = tile.y + path_index as i32;
    let roll = noise2d(tile.x, y, seed) as u64;
    proof {
        assert(roll * 50 <= 0xFFFF_FFFF * 50);
    }
    let miss = if path_index <= 31 {
        roll * 50 > (49 - d) * 0xFFFF_FFFFu64
    } else {
        roll * 20 > 7 * 0xFFFF_FFFFu64
    };
    if miss {
        return BulletHitResult::Miss;
    }
    let hs = noise2d(tile.x, y, seed.wrapping_add(13)) as u64;
    let headshot = if path_index < 1 {
        hs * 10 < 0xFFFF_FFFFu64
    } else {
        hs * 50 < 0xFFFF_FFFFu64
    };
    if headshot {
        BulletHitResult::Headshot { damage: target_max_hp }
    } else {
        BulletHitResult::Hit { damage: penetration }
    }
}

/// Same-faction targets are spared (friendly fire protection).
pub open spec fn spared(source: Option<Faction>, target: Option<Faction>) -> bool {
    match (source, target) {
        (Some(s), Some(t)) => s == t,
        _ => false,
    }
}

/// The first `k` targets on `tile`, in order, against penetration `pen0`:
/// the penetration left, the events, and whether the projectile stopped
/// (a thrown blade stops at its first hit; nothing is hit without
/// penetration left).
pub open spec fn volley(
    ts: Seq<ShotTarget>,
    source: Option<Faction>,
    bullet: bool,
    blade: bool,
    tile: GridVec,
    d: int,
    pen0: i32,
    k: nat,
) -> (i32, Seq<ShotEvent>, bool)
    decreases k,
{
    if k == 0 {
        (pen0, Seq::empty(), false)
    } else {
        let (pen, evs, stop) = volley(ts, source, bullet, blade, tile, d, pen0, (k - 1) as nat);
        let t = ts[k - 1];
        if stop || t.pos != tile {
            (pen, evs, stop)
        } else if pen <= 0 {
            (pen, evs, true)
        } else if spared(source, t.faction) {
            (pen, evs, false)
        } else if bullet && bullet_outcome(tile, d, t.max_hp, pen) == BulletHitResult::Miss {
            (pen, evs.push(ShotEvent::Missed { target: t.entity, at: tile }), false)
        } else if bullet && bullet_outcome(tile, d, t.max_hp, pen) is Headshot {
            (pen, evs.push(ShotEvent::Headshot { target: t.entity, amount: t.max_hp, at: tile }), false)
        } else if blade {
            (0, evs.push(ShotEvent::Hit { target: t.entity, amount: pen, at: tile }), true)
        } else {
            (pen, evs.push(ShotEvent::Hit { target: t.entity, amount: pen, at: tile }), false)
        }
    }
}

/// Some target stands on `tile`.
pub open spec fn occupied_tile(ts: Seq<ShotTarget>, tile: GridVec) -> bool {
    exists|i: int| 0 <= i < ts.len() && ts[i].pos == tile
}

/// Where a projectile is in its flight.
#[derive(Clone, Copy, Debug, PartialEq, Eq, Structural)]
pub struct FlightState {
    /// Index of the current tile on the path.
    pub index: usize,
    /// Remaining penetration power.
    pub penetration: i32,
    /// Previous tile.
    pub tail: Option<GridVec>,
    /// The projectile is done and leaves the world.
    pub despawn: bool,
}

/// Everything a flight depends on besides its state.
pub open spec fn flight_ok(path: Seq<GridVec>, open: Seq<bool>) -> bool {
    &&& 0 < path.len() <= MAX_PATH_LEN
    &&& open.len() == path.len()
    &&& forall|i: int|
        0 <= i < path.len() ==> -MAX_PATH_COORD <= (#[trigger] path[i]).x <= MAX_PATH_COORD && -MAX_PATH_COORD <= path[i].y
            <= MAX_PATH_COORD
}

/// Damage the thrower takes from their own shrapnel: half (toward zero)
/// of the projectile's damage, at least 1.
pub open spec fn self_damage(damage: i32) -> int {
    if half_toward_zero(damage as int) > 1 {
        half_toward_zero(damage as int)
    } else {
        1
    }
}

/// The tail end of one tile: the thrower's own shrapnel, then the step
/// to the next tile (leaving the world past the path's end).
pub open spec fn after_hits(
    path: Seq<GridVec>,
    damage: i32,
    source: EntityId,
    player: Option<ShotTarget>,
    s: FlightState,
    pen: i32,
    evs: Seq<ShotEvent>,
) -> (FlightState, Seq<ShotEvent>) {
    let tile = path[s.index as int];
    if player is Some && player->0.entity == source && player->0.pos == tile {
        (
            FlightState { penetration: pen, despawn: true, ..s },
            evs.push(ShotEvent::SelfHit { target: source, amount: self_damage(damage) as i32, at: tile }),
        )
    } else {
        let next = (s.index + 1) as usize;
        (FlightState { index: next, penetration: pen, tail: Some(tile), despawn: next >= path.len() }, evs)
    }
}

/// One tile of flight from state `s` (not yet despawned).
pub open spec fn one_tile(
    path: Seq<GridVec>,
    open: Seq<bool>,
    damage: i32,
    source: EntityId,
    visual: ProjectileVisual,
    bullet: bool,
    sf: Option<Faction>,
    ts: Seq<ShotTarget>,
    player: Option<ShotTarget>,
    s: FlightState,
    evs: Seq<ShotEvent>,
) -> (FlightState, Seq<ShotEvent>) {
    let d = s.index as int;
    let tile = path[d];
    if !open[d] {
        (FlightState { despawn: true, ..s }, evs.push(ShotEvent::Blocked { at: tile }))
    } else {
        let (pen, hits, _) = volley(ts, sf, bullet, visual == ProjectileVisual::SpinningBlade, tile, d, s.penetration, ts.len());
        let evs1 = evs + hits;
        if occupied_tile(ts, tile) && pen <= 0 {
            (FlightState { penetration: pen, despawn: true, ..s }, evs1)
        } else if player is Some && player->0.entity != source && player->0.pos == tile && pen > 0 {
            let pl = player->0;
            if bullet && bullet_outcome(tile, d, pl.max_hp, pen) == BulletHitResult::Miss {
                after_hits(path, damage, source, player, s, pen, evs1.push(ShotEvent::Missed { target: pl.entity, at: tile }))
            } else if bullet && bullet_outcome(tile, d, pl.max_hp, pen) is Headshot {
                (
                    FlightState { penetration: pen, despawn: true, ..s },
                    evs1.push(ShotEvent::Headshot { target: pl.entity, amount: pl.max_hp, at: tile }),
                )
            } else {
                (
                    FlightState { penetration: pen, despawn: true, ..s },
                    evs1.push(ShotEvent::Hit { target: pl.entity, amount: pen, at: tile }),
                )
            }
        } else {
            after_hits(path, damage, source, player, s, pen, evs1)
        }
    }
}

/// The state and events after up to `k` more tiles of flight (stopping
/// once despawned).
pub open spec fn fly(
    path: Seq<GridVec>,
    open: Seq<bool>,
    damage: i32,
    source: EntityId,
    visual: ProjectileVisual,
    bullet: bool,
    sf: Option<Faction>,
    ts: Seq<ShotTarget>,
    player: Option<ShotTarget>,
    s: FlightState,
    evs: Seq<ShotEvent>,
    k: nat,
) -> (FlightState, Seq<ShotEvent>)
    decreases k,
{
    if k == 0 || s.despawn {
        (s, evs)
    } else {
        let (s1, e1) = one_tile(path, open, damage, source, visual, bullet, sf, ts, player, s, evs);
        fly(path, open, damage, source, visual, bullet, sf, ts, player, s1, e1, (k - 1) as nat)
    }
}

/// The flight state of a projectile.
pub open spec fn state_of(p: Projectile) -> FlightState {
    FlightState { index: p.path_index, penetration: p.penetration, tail: p.tail_pos, despawn: false }
}

/// Applies the targets on `tile` in order (see `volley`), appending the
/// events; returns the penetration left and whether any target stands on
/// the tile.
fn resolve_volley(
    targets: &[ShotTarget],
    sf: Option<Faction>,
    bullet: bool,
    blade: bool,
    tile: GridVec,
    d: usize,
    pen0: i32,
    events: &mut Vec<ShotEvent>,
) -> (r: (i32, bool))
    requires
        -MAX_PATH_COORD <= tile.y <= MAX_PATH_COORD,
        d <= MAX_PATH_LEN,
    ensures
        r.0 == volley(targets@, sf, bullet, blade, tile, d as int, pen0, targets@.len()).0,
        final(events)@ == old(events)@ + volley(targets@, sf, bullet, blade, tile, d as int, pen0, targets@.len()).1,
        r.1 == occupied_tile(targets@, tile),
{
    let ghost start = events@;
    let mut pen = pen0;
    let mut stop = false;
    let mut found = false;
    let mut k: usize = 0;
    while k < targets.len()
        invariant
            -MAX_PATH_COORD <= tile.y <= MAX_PATH_COORD,
            d <= MAX_PATH_LEN,
            k <= targets@.len(),
            (pen, events@.subrange(start.len() as int, events@.len() as int), stop) == volley(
                targets@,
                sf,
                bullet,
                blade,
                tile,
                d as int,
                pen0,
                k as nat,
            ),
            events@.len() >= start.len(),
            events@.subrange(0, start.len() as int) == start,
            found == exists|i: int| 0 <= i < k && targets@[i].pos == tile,
        decreases targets@.len() - k,
    {
        let t = targets[k];
        let ghost before = events@;
        if t.pos == tile {
            found = true;
            if !stop {
                if pen <= 0 {
                    stop = true;
                } else {
                    let spare = match (sf, t.faction) {
                        (Some(a), Some(b)) => a == b,
                        _ => false,
                    };
                    if !spare {
                        let outcome = if bullet {
                            resolve_bullet_hit(tile, d, t.max_hp, pen)
                        } else {
                            BulletHitResult::Hit { damage: pen }
                        };
                        match outcome {
                            BulletHitResult::Miss => {
                                events.push(ShotEvent::Missed { target: t.entity, at: tile });
                            },
                            BulletHitResult::Headshot { .. } => {
                                events.push(ShotEvent::Headshot { target: t.entity, amount: t.max_hp, at: tile });
                            },
                            BulletHitResult::Hit { .. } => {
                                events.push(ShotEvent::Hit { target: t.entity, amount: pen, at: tile });
                                if blade {
                                    pen = 0;
                                    stop = true;
                                }
                            },
                        }
                    }
                }
            }
        }
        proof {
            assert(events@.subrange(0, start.len() as int) =~= start) by {
                assert(before.subrange(0, start.len() as int) == start);
            }
            if events@.len() > before.len() {
                assert(events@.subrange(start.len() as int, events@.len() as int) =~= before.subrange(
                    start.len() as int,
                    before.len() as int,
                ).push(events@.last()));
            } else {
                assert(events@ == before);
            }
            assert(targets@[k as int] == t);
        }
        k = k + 1;
    }
    proof {
        assert(events@ =~= start + events@.subrange(start.len() as int, events@.len() as int));
    }
    (pen, found)
}

/// The thrower's own shrapnel, then the step to the next tile (see
/// `after_hits`).
fn finish_tile(
    path: &Vec<GridVec>,
    damage: i32,
    source: EntityId,
    player: Option<ShotTarget>,
    s: FlightState,
    pen: i32,
    events: &mut Vec<ShotEvent>,
) -> (r: FlightState)
    requires
        0 < path@.len() <= MAX_PATH_LEN,
        s.index < path@.len(),
    ensures
        (r, final(events)@) == after_hits(path@, damage, source, player, s, pen, old(events)@),
{
    let tile = path[s.index];
    match player {
        Some(pl) => {
            if pl.entity == source && pl.pos == tile {
                let half = if damage >= 0 {
                    damage / SELF_DAMAGE_DIVISOR
                } else {
                    -((-(damage as i64)) / 2) as i32
                };
                let amount = if half > 1 {
                    half
                } else {
                    1
                };
                events.push(ShotEvent::SelfHit { target: source, amount, at: tile });
                return FlightState { penetration: pen, despawn: true, ..s };
            }
        },
        None => {},
    }
    let next = s.index + 1;
    FlightState { index: next, penetration: pen, tail: Some(tile), despawn: next >= path.len() }
}

/// One tile of flight (see `one_tile`).
fn fly_one_tile(
    path: &Vec<GridVec>,
    open: &[bool],
    damage: i32,
    source: EntityId,
    visual: ProjectileVisual,
    bullet: bool,
    sf: Option<Faction>,
    targets: &[ShotTarget],
    player: Option<ShotTarget>,
    s: FlightState,
    events: &mut Vec<ShotEvent>,
) -> (r: FlightState)
    requires
        flight_ok(path@, open@),
        s.index < path@.len(),
    ensures
        (r, final(events)@) == one_tile(path@, open@, damage, source, visual, bullet, sf, targets@, player, s, old(events)@),
{
    let d = s.index;
    let tile = path[d];
    proof {
        assert(-MAX_PATH_COORD <= path@[d as int].y <= MAX_PATH_COORD);
    }
    if !open[d] {
        events.push(ShotEvent::Blocked { at: tile });
        return FlightState { despawn: true, ..s };
    }
    let blade = match visual {
        ProjectileVisual::SpinningBlade => true,
        _ => false,
    };
    let (pen, occupied) = resolve_volley(targets, sf, bullet, blade, tile, d, s.penetration, events);
    if occupied && pen <= 0 {
        return FlightState { penetration: pen, despawn: true, ..s };
    }
    match player {
        Some(pl) => {
            if pl.entity != source && pl.pos == tile && pen > 0 {
                let outcome = if bullet {
                    resolve_bullet_hit(tile, d, pl.max_hp, pen)
                } else {
                    BulletHitResult::Hit { damage: pen }
                };
                match outcome {
                    BulletHitResult::Miss => {
                        events.push(ShotEvent::Missed { target: pl.entity, at: tile });
                        return finish_tile(path, damage, source, player, s, pen, events);
                    },
                    BulletHitResult::Headshot { .. } => {
                        events.push(ShotEvent::Headshot { target: pl.entity, amount: pl.max_hp, at: tile });
                        return FlightState { penetration: pen, despawn: true, ..s };
                    },
                    BulletHitResult::Hit { .. } => {
                        events.push(ShotEvent::Hit { target: pl.entity, amount: pen, at: tile });
                        return FlightState { penetration: pen, despawn: true, ..s };
                    },
                }
            }
        },
        None => {},
    }
    finish_tile(path, damage, source, player, s, pen, events)
}

/// Advances a projectile by up to `steps` tiles (fewer once it leaves the
/// world), given which path tiles let projectiles through (`open`), the
/// shooter's faction, the entities it can hit other than the player (in
/// order), and the player. Returns what happened, in order, and whether
/// the projectile leaves the world.
pub fn advance_projectile(
    proj: &mut Projectile,
    steps: usize,
    open: &[bool],
    source_faction: Option<Faction>,
    targets: &[ShotTarget],
    player: Option<ShotTarget>,
) -> (r: (Vec<ShotEvent>, bool))
    requires
        flight_ok(old(proj).path@, open@),
        old(proj).path_index < old(proj).path@.len(),
    ensures
        ({
            let (s, evs) = fly(
                old(proj).path@,
                open@,
                old(proj).damage,
                old(proj).source,
                old(proj).visual,
                old(proj).is_bullet,
                source_faction,
                targets@,
                player,
                state_of(*old(proj)),
                Seq::empty(),
                steps as nat,
            );
            &&& final(proj).path_index == s.index
            &&& final(proj).penetration == s.penetration
            &&& final(proj).tail_pos == s.tail
            &&& r.0@ == evs
            &&& r.1 == s.despawn
        }),
        final(proj).path@ == old(proj).path@,
        final(proj).tiles_per_tick == old(proj).tiles_per_tick,
        final(proj).damage == old(proj).damage,
        final(proj).source == old(proj).source,
        final(proj).visual == old(proj).visual,
        final(proj).is_bullet == old(proj).is_bullet,
{
    let ghost init = state_of(*proj);
    let mut st = FlightState { index: proj.path_index, penetration: proj.penetration, tail: proj.tail_pos, despawn: false };
    let mut events: Vec<ShotEvent> = Vec::new();
    let mut i: usize = 0;
    while i < steps && !st.despawn
        invariant
            flight_ok(proj.path@, open@),
            i <= steps,
            !st.despawn ==> st.index < proj.path@.len(),
            fly(
                proj.path@,
                open@,
                proj.damage,
                proj.source,
                proj.visual,
                proj.is_bullet,
                source_faction,
                targets@,
                player,
                st,
                events@,
                (steps - i) as nat,
            ) == fly(
                proj.path@,
                open@,
                proj.damage,
                proj.source,
                proj.visual,
                proj.is_bullet,
                source_faction,
                targets@,
                player,
                init,
                Seq::empty(),
                steps as nat,
            ),
        decreases steps - i,
    {
        st = fly_one_tile(
            &proj.path,
            open,
            proj.damage,
            proj.source,
            proj.visual,
            proj.is_bullet,
            source_faction,
            targets,
            player,
            st,
            &mut events,
        );
        i = i + 1;
    }
    proj.path_index = st.index;
    proj.penetration = st.penetration;
    proj.tail_pos = st.tail;
    (events, st.despawn)
}

/// A projectile leaving `origin` for `endpoint` along the Bresenham line
/// between them, starting on the line's second tile with penetration
/// equal to its damage; `None` when the two points coincide.
pub fn launch(
    origin: GridVec,
    endpoint: GridVec,
    damage: i32,
    source: EntityId,
    tiles_per_tick: usize,
    visual: ProjectileVisual,
    is_bullet: bool,
) -> (r: Option<Projectile>)
    requires
        -MAX_PATH_COORD <= origin.x <= MAX_PATH_COORD,
        -MAX_PATH_COORD <= origin.y <= MAX_PATH_COORD,
        -MAX_PATH_COORD <= endpoint.x <= MAX_PATH_COORD,
        -MAX_PATH_COORD <= endpoint.y <= MAX_PATH_COORD,
    ensures
        r is None <==> origin == endpoint,
        r matches Some(p) ==> {
            &&& p.path@.len() == max_int(abs_int(endpoint.x - origin.x), abs_int(endpoint.y - origin.y)) + 1
            &&& p.path@[0] == origin
            &&& p.path@.last() == endpoint
            &&& p.path_index == 1
            &&& p.tiles_per_tick == tiles_per_tick
            &&& p.damage == damage
            &&& p.penetration == damage
            &&& p.source == source
            &&& p.tail_pos is None
            &&& p.visual == visual
            &&& p.is_bullet == is_bullet
        },
{
    let path = origin.bresenham_line(endpoint);
    if path.len() <= 1 {
        return None;
    }
    Some(
        Projectile {
            path,
            path_index: 1,
            tiles_per_tick,
            damage,
            penetration: damage,
            source,
            tail_pos: None,
            visual,
            is_bullet,
        },
    )
}

/// `(a, b)` comes before `(c, d)`: by the first coordinate, then the
/// second.
pub open spec fn lex_before(p: GridVec, q: GridVec) -> bool {
    p.x < q.x || (p.x == q.x && p.y < q.y)
}

/// `(x, y)` is a tile of the square of `radius` around `origin` other
/// than its centre.
pub open spec fn in_blast(origin: GridVec, radius: int, x: int, y: int) -> bool {
    abs_int(x - origin.x) <= radius && abs_int(y - origin.y) <= radius && !(x == origin.x && y == origin.y)
}

/// The endpoints of a grenade's shrapnel: one per tile of the square of
/// the given radius around `origin` but the centre, column by column.
pub fn shrapnel_endpoints(origin: GridVec, radius: i32) -> (r: Vec<GridVec>)
    requires
        0 <= radius <= 1000,
        -MAX_PATH_COORD <= origin.x <= MAX_PATH_COORD,
        -MAX_PATH_COORD <= origin.y <= MAX_PATH_COORD,
    ensures
        forall|k: int|
            0 <= k < r@.len() ==> {
                let e = #[trigger] r@[k];
                &&& abs_int(e.x - origin.x) <= radius
                &&& abs_int(e.y - origin.y) <= radius
                &&& e != origin
            },
        forall|i: int, j: int| 0 <= i < j < r@.len() ==> lex_before(#[trigger] r@[i], #[trigger] r@[j]),
        forall|x: int, y: int|
            #[trigger] in_blast(origin, radius as int, x, y) ==> exists|k: int| 0 <= k < r@.len() && r@[k].x == x && r@[k].y == y,
{
    let mut out: Vec<GridVec> = Vec::new();
    let mut dx: i32 = -radius;
    while dx <= radius
        invariant
            0 <= radius <= 1000,
            -MAX_PATH_COORD <= origin.x <= MAX_PATH_COORD,
            -MAX_PATH_COORD <= origin.y <= MAX_PATH_COORD,
            -radius <= dx <= radius + 1,
            forall|k: int|
                0 <= k < out@.len() ==> {
                    let e = #[trigger] out@[k];
                    &&& abs_int(e.x - origin.x) <= radius
                    &&& abs_int(e.y - origin.y) <= radius
                    &&& e != origin
                    &&& e.x < origin.x + dx
                },
            forall|i: int, j: int| 0 <= i < j < out@.len() ==> lex_before(#[trigger] out@[i], #[trigger] out@[j]),
            forall|x: int, y: int|
                #[trigger] in_blast(origin, radius as int, x, y) && x < origin.x + dx ==> exists|k: int|
                    0 <= k < out@.len() && out@[k].x == x && out@[k].y == y,
        decreases radius + 1 - dx,
    {
        let mut dy: i32 = -radius;
        while dy <= radius
            invariant
                0 <= radius <= 1000,
                -MAX_PATH_COORD <= origin.x <= MAX_PATH_COORD,
                -MAX_PATH_COORD <= origin.y <= MAX_PATH_COORD,
                -radius <= dx <= radius,
                -radius <= dy <= radius + 1,
                forall|k: int|
                    0 <= k < out@.len() ==> {
                        let e = #[trigger] out@[k];
                        &&& abs_int(e.x - origin.x) <= radius
                        &&& abs_int(e.y - origin.y) <= radius
                        &&& e != origin
                        &&& (e.x < origin.x + dx || (e.x == origin.x + dx && e.y < origin.y + dy))
                    },
                forall|i: int, j: int| 0 <= i < j < out@.len() ==> lex_before(#[trigger] out@[i], #[trigger] out@[j]),
                forall|x: int, y: int|
                    #[trigger] in_blast(origin, radius as int, x, y) && (x < origin.x + dx || (x == origin.x + dx && y
                        < origin.y + dy)) ==> exists|k: int| 0 <= k < out@.len() && out@[k].x == x && out@[k].y == y,
            decreases radius + 1 - dy,
        {
            if dx != 0 || dy != 0 {
                let e = GridVec::new(origin.x + dx, origin.y + dy);
                let ghost before = out@;
                out.push(e);
                proof {
                    assert(out@[before.len() as int] == e);
                    assert forall|x: int, y: int|
                        #[trigger] in_blast(origin, radius as int, x, y) && (x < origin.x + dx || (x == origin.x + dx && y
                            < origin.y + dy + 1)) implies exists|k: int| 0 <= k < out@.len() && out@[k].x == x && out@[k].y == y by {
                        if x == origin.x + dx && y == origin.y + dy {
                            assert(out@[before.len() as int].x == x);
                        } else {
                            let k = choose|k: int| 0 <= k < before.len() && before[k].x == x && before[k].y == y;
                            assert(out@[k] == before[k]);
                        }
                    }
                }
            }
            dy = dy + 1;
        }
        dx = dx + 1;
    }
    out
}

} // verus!
