//! What a key press does: the player's controls as a step from the input
//! context and a key to the new input state and the actions the player
//! takes. Global keys (menu, help) always work; the action keys only
//! while the game awaits the player's input. Carrying the actions out
//! (moving, shooting, throwing) is the job of the turn systems.
use vstd::prelude::*;

use crate::abilities::{
    dual_wield, dual_wield_spec, fan_shot, fan_shot_spec, throw_random, throw_random_spec, CarriedItem, DualWield,
    FanShot, ThrowRandom,
};
use crate::components::{EntityId, ItemKind, SPELL_STAMINA_COST};
use crate::grid_vec::{add_spec, chebyshev, gv, king_step_spec, sub_spec, GridVec};
use crate::projectile::THROWN_RANGE;
use crate::resources::{DynamicRng, InputMode, InputState};

verus! {

/// The overall state of the game.
#[derive(Clone, Copy, Debug, PartialEq, Eq, Structural)]
pub enum GameState {
    Playing,
    Paused,
    Dead,
    Victory,
}

/// A key press.
#[derive(Clone, Copy, Debug, PartialEq, Eq, Structural)]
pub enum Key {
    Char(char),
    Up,
    Down,
    Left,
    Right,
    Esc,
    Other,
}

/// How far a bullet may travel.
pub const RANGED_ATTACK_RANGE: i32 = 100;
/// The blast radius of a thrown grenade.
pub const SPELL_RADIUS: i32 = 3;
/// Stamina the dual wield costs.
pub const DUAL_WIELD_STAMINA_COST: i32 = 15;
/// Stamina the fan shot costs.
pub const FAN_SHOT_STAMINA_COST: i32 = 20;
/// Stamina throwing sand costs.
pub const SAND_STAMINA_COST: i32 = 5;
/// Stamina the random throw costs.
pub const THROW_ITEM_STAMINA_COST: i32 = 10;
/// Stamina the dive costs.
pub const DIVE_STAMINA_COST: i32 = 20;
/// How many tiles the dive moves.
pub const DIVE_DISTANCE: i32 = 3;

/// An action the player takes.
#[derive(Clone, Copy, Debug, PartialEq, Eq, Structural)]
pub enum PlayerAction {
    /// Step by `(dx, dy)`.
    Move { dx: i32, dy: i32 },
    /// Roundhouse kick of every adjacent enemy.
    Kick,
    /// Punch this entity.
    Punch { target: EntityId },
    /// Pick up the item underfoot.
    Pickup,
    /// Fire this gun along `(dx, dy)`.
    Shoot { gun: EntityId, dx: i32, dy: i32, range: i32 },
    /// Throw the item at this inventory index along `(dx, dy)`.
    Throw { index: usize, item: EntityId, dx: i32, dy: i32, range: i32, damage: i32 },
    /// Throw the grenade at this inventory index at `target`.
    Grenade { index: usize, target: GridVec, radius: i32 },
    /// Throw the molotov at this inventory index at `target`.
    Molotov { index: usize, target: GridVec, radius: i32, damage: i32 },
    /// Use the item at this inventory index.
    UseItem { index: usize },
    /// Throw a handful of sand that clouds the tiles around `target`.
    SandCloud { target: GridVec, radius: i32 },
}

/// What the combat log is told about a key press.
#[derive(Clone, Copy, Debug, PartialEq, Eq, Structural)]
pub enum InputNote {
    NoEnemiesVisible,
    Waiting,
    NothingToPunch,
    GodModeOn,
    GodModeOff,
    NoStaminaToDive,
    CursorOnSelf,
    Dove,
    GunEmpty,
    NoStamina,
    NoStaminaForDualWield,
    NoStaminaForFanShot,
    NoStaminaToThrow,
    SandThrown,
    NoInventory,
    TooFewRevolvers,
    DualWieldShot,
    NoLoadedRevolver,
    FanShot(i32),
    InventoryEmpty,
}

/// What a key press sees: the game and turn state, the input state, the
/// cursor, god mode, the player (entity and tile) if there is one, its
/// stamina and inventory, the tiles of the hostiles in view, the entities
/// with health other than the player (tile, entity, in lookup order), and
/// the random source.
pub struct InputContext {
    pub game_state: GameState,
    pub awaiting_input: bool,
    pub spectating: bool,
    pub input: InputState,
    pub cursor: GridVec,
    pub god_mode: bool,
    pub player: Option<(EntityId, GridVec)>,
    pub stamina: Option<i32>,
    pub items: Option<Vec<CarriedItem>>,
    pub hostiles: Vec<GridVec>,
    pub bodies: Vec<(GridVec, EntityId)>,
    pub rng: DynamicRng,
    pub seed: u64,
}

/// What a key press changes: the input state, the cursor, god mode and
/// spectating; whether a restart is requested, the next game state,
/// whether the player's turn begins, the extra world ticks the action
/// costs, whether the player's view must be recomputed, and what the log
/// is told.
#[derive(Clone, Copy, Debug)]
pub struct InputOutcome {
    pub input: InputState,
    pub cursor: GridVec,
    pub god_mode: bool,
    pub spectating: bool,
    pub restart: bool,
    pub next_game_state: Option<GameState>,
    pub advance_turn: bool,
    pub extra_ticks: Option<i32>,
    pub viewshed_dirty: bool,
    pub note: Option<InputNote>,
}

/// Coordinates small enough for every offset the controls compute.
pub open spec fn coord_ok(p: GridVec) -> bool {
    -0x2000_0000 <= p.x <= 0x2000_0000 && -0x2000_0000 <= p.y <= 0x2000_0000
}

/// Whether the context's tiles are within `coord_ok`.
pub open spec fn context_ok(ctx: InputContext) -> bool {
    &&& coord_ok(ctx.cursor)
    &&& (ctx.player matches Some((_, p)) ==> coord_ok(p))
    &&& forall|i: int| 0 <= i < ctx.hostiles@.len() ==> coord_ok(#[trigger] ctx.hostiles@[i])
}

/// The outcome of a key that changes nothing.
pub open spec fn unchanged(ctx: InputContext) -> InputOutcome {
    InputOutcome {
        input: ctx.input,
        cursor: ctx.cursor,
        god_mode: ctx.god_mode,
        spectating: ctx.spectating,
        restart: false,
        next_game_state: None,
        advance_turn: false,
        extra_ticks: None,
        viewshed_dirty: false,
        note: None,
    }
}

/// The nearest of the hostiles `hs[i..]` to `from` (Chebyshev; the
/// earliest among equals), given the best so far.
pub open spec fn nearest_from(hs: Seq<GridVec>, from: GridVec, i: int, best: Option<GridVec>, best_d: int) -> Option<GridVec>
    decreases hs.len() - i,
{
    if i < 0 || i >= hs.len() {
        best
    } else if chebyshev(from, hs[i]) < best_d {
        nearest_from(hs, from, i + 1, Some(hs[i]), chebyshev(from, hs[i]))
    } else {
        nearest_from(hs, from, i + 1, best, best_d)
    }
}

/// `t` is a nearest of the hostiles `hs` to `from` (Chebyshev), the
/// first listed among those as near.
pub open spec fn is_nearest(hs: Seq<GridVec>, from: GridVec, t: GridVec) -> bool {
    exists|j: int|
        0 <= j < hs.len() && hs[j] == t && (forall|k: int| 0 <= k < hs.len() ==> chebyshev(from, t) <= chebyshev(from, #[trigger] hs[k]))
            && (forall|k: int| 0 <= k < j ==> chebyshev(from, t) < chebyshev(from, #[trigger] hs[k]))
}

/// The scan from `i` on, with the best `best` (at distance `best_d`) of
/// `hs[..i]`, ends on a nearest hostile.
proof fn lemma_nearest_from(hs: Seq<GridVec>, from: GridVec, i: int, best: Option<GridVec>, best_d: int)
    requires
        0 <= i <= hs.len(),
        forall|k: int| 0 <= k < hs.len() ==> chebyshev(from, #[trigger] hs[k]) < i32::MAX,
        best is None ==> i == 0 && best_d == i32::MAX,
        best matches Some(t) ==> {
            &&& best_d == chebyshev(from, t)
            &&& exists|j: int|
                0 <= j < i && hs[j] == t && (forall|k: int| 0 <= k < i ==> best_d <= chebyshev(from, #[trigger] hs[k]))
                    && (forall|k: int| 0 <= k < j ==> best_d < chebyshev(from, #[trigger] hs[k]))
        },
    ensures
        nearest_from(hs, from, i, best, best_d) is None <==> hs.len() == 0,
        nearest_from(hs, from, i, best, best_d) matches Some(t) ==> is_nearest(hs, from, t),
    decreases hs.len() - i,
{
    if i < hs.len() {
        let d = chebyshev(from, hs[i]);
        if d < best_d {
            assert forall|k: int| 0 <= k < i + 1 implies d <= chebyshev(from, #[trigger] hs[k]) by {
                if k < i {
                    if let Some(t) = best {
                        let j = choose|j: int|
                            0 <= j < i && hs[j] == t && (forall|k: int| 0 <= k < i ==> best_d <= chebyshev(from, #[trigger] hs[k]))
                                && (forall|k: int| 0 <= k < j ==> best_d < chebyshev(from, #[trigger] hs[k]));
                    }
                }
            }
            assert forall|k: int| 0 <= k < i implies d < chebyshev(from, #[trigger] hs[k]) by {
                if let Some(t) = best {
                    let j = choose|j: int|
                        0 <= j < i && hs[j] == t && (forall|k: int| 0 <= k < i ==> best_d <= chebyshev(from, #[trigger] hs[k]))
                            && (forall|k: int| 0 <= k < j ==> best_d < chebyshev(from, #[trigger] hs[k]));
                }
            }
            lemma_nearest_from(hs, from, i + 1, Some(hs[i]), d);
        } else {
            if let Some(t) = best {
                let j = choose|j: int|
                    0 <= j < i && hs[j] == t && (forall|k: int| 0 <= k < i ==> best_d <= chebyshev(from, #[trigger] hs[k]))
                        && (forall|k: int| 0 <= k < j ==> best_d < chebyshev(from, #[trigger] hs[k]));
                assert forall|k: int| 0 <= k < i + 1 implies best_d <= chebyshev(from, #[trigger] hs[k]) by {}
            }
            lemma_nearest_from(hs, from, i + 1, best, best_d);
        }
    } else {
        if let Some(t) = best {
            let j = choose|j: int|
                0 <= j < i && hs[j] == t && (forall|k: int| 0 <= k < i ==> best_d <= chebyshev(from, #[trigger] hs[k]))
                    && (forall|k: int| 0 <= k < j ==> best_d < chebyshev(from, #[trigger] hs[k]));
            assert(is_nearest(hs, from, t));
        }
    }
}

/// Auto-aim targets a nearest visible hostile: there is a target exactly
/// when a hostile is listed, it is one of them, no listed hostile is
/// nearer, and it is the first listed among those as near.
pub proof fn law_auto_aim_nearest(hs: Seq<GridVec>, from: GridVec)
    requires
        coord_ok(from),
        forall|k: int| 0 <= k < hs.len() ==> coord_ok(#[trigger] hs[k]),
    ensures
        nearest_from(hs, from, 0, None, i32::MAX as int) is None <==> hs.len() == 0,
        nearest_from(hs, from, 0, None, i32::MAX as int) matches Some(t) ==> is_nearest(hs, from, t),
{
    assert forall|k: int| 0 <= k < hs.len() implies chebyshev(from, #[trigger] hs[k]) < i32::MAX by {
        assert(coord_ok(hs[k]));
    }
    lemma_nearest_from(hs, from, 0, None, i32::MAX as int);
}

/// The first entity with health on tile `t` among `bodies[i..]`.
pub open spec fn body_at(bodies: Seq<(GridVec, EntityId)>, t: GridVec, i: int) -> Option<EntityId>
    decreases bodies.len() - i,
{
    if i < 0 || i >= bodies.len() {
        None
    } else if bodies[i].0 == t {
        Some(bodies[i].1)
    } else {
        body_at(bodies, t, i + 1)
    }
}

/// Whether the bytes hold "Starr" (double-action revolvers are named so).
pub open spec fn names_starr(b: Seq<u8>) -> bool {
    exists|i: int| 0 <= i && i + 5 <= b.len() && #[trigger] b.subrange(i, i + 5) == seq![83u8, 116u8, 97u8, 114u8, 114u8]
}

/// Whether the player has at least `cost` stamina.
pub open spec fn has_stamina(stamina: Option<i32>, cost: int) -> bool {
    match stamina {
        Some(s) => s >= cost,
        None => false,
    }
}

/// The outcome of a turn-taking action: the turn begins and the action
/// costs `extra` world ticks.
pub open spec fn acting(o: InputOutcome, extra: int) -> InputOutcome {
    InputOutcome { advance_turn: true, extra_ticks: Some(extra as i32), ..o }
}

/// The outcome of a key that only tells the log something.
pub open spec fn telling(o: InputOutcome, n: InputNote) -> InputOutcome {
    InputOutcome { note: Some(n), ..o }
}

/// What inventory key `idx` (keys 1 to 6) does, with the cursor `delta`
/// from the player: a loaded gun fires at the cursor (one extra tick, none
/// for a double-action revolver), a knife or tomahawk is thrown at it, a
/// grenade or molotov is thrown at the cursor when stamina allows, and any
/// other item is used.
pub open spec fn slot_step(ctx: InputContext, o: InputOutcome, idx: int, delta: GridVec) -> (InputOutcome, Seq<PlayerAction>) {
    let kind: Option<ItemKind> = match ctx.items {
        Some(v) => if idx < v@.len() { v@[idx].1 } else { None },
        None => None,
    };
    let item: EntityId = match ctx.items {
        Some(v) => if idx < v@.len() { v@[idx].0 } else { EntityId(0) },
        None => EntityId(0),
    };
    let on_self = delta.x == 0 && delta.y == 0;
    match kind {
        Some(ItemKind::Gun { loaded, name, .. }) => if loaded <= 0 {
            (telling(o, InputNote::GunEmpty), seq![])
        } else if on_self {
            (telling(o, InputNote::CursorOnSelf), seq![])
        } else {
            (
                acting(o, if names_starr(vstd::utf8::encode_utf8(name@)) { 0 } else { 1 }),
                seq![PlayerAction::Shoot { gun: item, dx: delta.x, dy: delta.y, range: RANGED_ATTACK_RANGE }],
            )
        },
        Some(ItemKind::Knife { attack, .. }) | Some(ItemKind::Tomahawk { attack, .. }) => if on_self {
            (telling(o, InputNote::CursorOnSelf), seq![])
        } else {
            (
                acting(o, 1),
                seq![PlayerAction::Throw { index: idx as usize, item, dx: delta.x, dy: delta.y, range: THROWN_RANGE, damage: attack }],
            )
        },
        Some(ItemKind::Grenade { .. }) => if !has_stamina(ctx.stamina, SPELL_STAMINA_COST as int) {
            (telling(o, InputNote::NoStamina), seq![])
        } else {
            (acting(o, 1), seq![PlayerAction::Grenade { index: idx as usize, target: ctx.cursor, radius: SPELL_RADIUS }])
        },
        Some(ItemKind::Molotov { damage, radius, .. }) => if !has_stamina(ctx.stamina, SPELL_STAMINA_COST as int) {
            (telling(o, InputNote::NoStamina), seq![])
        } else {
            (acting(o, 1), seq![PlayerAction::Molotov { index: idx as usize, target: ctx.cursor, radius, damage }])
        },
        _ => (InputOutcome { advance_turn: true, ..o }, seq![PlayerAction::UseItem { index: idx as usize }]),
    }
}

/// The items the abilities see.
pub open spec fn items_view(ctx: InputContext) -> Option<Seq<CarriedItem>> {
    match ctx.items {
        Some(v) => Some(v@),
        None => None,
    }
}

/// What the ability keys 7 (dual wield), 8 (fan shot), 9 (throw sand) and
/// 0 (random throw) do once the stamina check has passed.
pub open spec fn ability_step(ctx: InputContext, o: InputOutcome, c: char, pos: GridVec, delta: GridVec) -> (InputOutcome, Seq<PlayerAction>) {
    if c == '7' {
        let o1 = InputOutcome { input: InputState { ability_stamina_pending: DUAL_WIELD_STAMINA_COST, ..o.input }, ..o };
        match dual_wield_spec(delta, items_view(ctx), ctx.rng.tick, ctx.seed) {
            DualWield::CursorOnSelf => (telling(o1, InputNote::CursorOnSelf), seq![]),
            DualWield::NoInventory => (telling(o1, InputNote::NoInventory), seq![]),
            DualWield::TooFewGuns => (telling(o1, InputNote::TooFewRevolvers), seq![]),
            DualWield::Fire(a, b) => (
                telling(acting(o1, 1), InputNote::DualWieldShot),
                seq![
                    PlayerAction::Shoot { gun: a, dx: delta.x, dy: delta.y, range: RANGED_ATTACK_RANGE },
                    PlayerAction::Shoot { gun: b, dx: delta.x, dy: delta.y, range: RANGED_ATTACK_RANGE },
                ],
            ),
        }
    } else if c == '8' {
        let o1 = InputOutcome { input: InputState { ability_stamina_pending: FAN_SHOT_STAMINA_COST, ..o.input }, ..o };
        match fan_shot_spec(delta, items_view(ctx), ctx.rng.tick, ctx.seed) {
            FanShot::CursorOnSelf => (telling(o1, InputNote::CursorOnSelf), seq![]),
            FanShot::NoInventory => (telling(o1, InputNote::NoInventory), seq![]),
            FanShot::NoLoadedGun => (telling(o1, InputNote::NoLoadedRevolver), seq![]),
            FanShot::Fire { gun, rounds } => (
                telling(acting(o1, 2), InputNote::FanShot(rounds)),
                Seq::new(
                    (if rounds > 0 { rounds as int } else { 0 }) as nat,
                    |i: int| PlayerAction::Shoot { gun, dx: delta.x, dy: delta.y, range: RANGED_ATTACK_RANGE },
                ),
            ),
        }
    } else if c == '9' {
        if delta.x == 0 && delta.y == 0 {
            (telling(o, InputNote::CursorOnSelf), seq![])
        } else {
            let step = king_step_spec(delta);
            let o1 = InputOutcome { input: InputState { ability_stamina_pending: SAND_STAMINA_COST, ..o.input }, ..o };
            (
                telling(acting(o1, 0), InputNote::SandThrown),
                seq![PlayerAction::SandCloud { target: gv(pos.x + step.x * 2, pos.y + step.y * 2), radius: 2 }],
            )
        }
    } else {
        let o1 = InputOutcome { input: InputState { ability_stamina_pending: THROW_ITEM_STAMINA_COST, ..o.input }, ..o };
        match throw_random_spec(delta, items_view(ctx), ctx.rng.tick, ctx.seed) {
            ThrowRandom::CursorOnSelf => (telling(o1, InputNote::CursorOnSelf), seq![]),
            ThrowRandom::NoInventory => (telling(o1, InputNote::NoInventory), seq![]),
            ThrowRandom::EmptyInventory => (telling(o1, InputNote::InventoryEmpty), seq![]),
            ThrowRandom::Throw { index, item, damage } => (
                acting(o1, 1),
                seq![PlayerAction::Throw { index, item, dx: delta.x, dy: delta.y, range: THROWN_RANGE, damage }],
            ),
        }
    }
}

/// The stamina an ability key costs, and the note when it is short.
pub open spec fn ability_cost(c: char) -> (int, InputNote) {
    if c == '7' {
        (DUAL_WIELD_STAMINA_COST as int, InputNote::NoStaminaForDualWield)
    } else if c == '8' {
        (FAN_SHOT_STAMINA_COST as int, InputNote::NoStaminaForFanShot)
    } else if c == '9' {
        (SAND_STAMINA_COST as int, InputNote::NoStamina)
    } else {
        (THROW_ITEM_STAMINA_COST as int, InputNote::NoStaminaToThrow)
    }
}

/// The direction a movement key steps in, if it is one.
pub open spec fn move_dir(key: Key) -> Option<(i32, i32)> {
    match key {
        Key::Char('w') | Key::Up => Some((0, 1)),
        Key::Char('s') | Key::Down => Some((0, (-1) as i32)),
        Key::Char('a') | Key::Left => Some(((-1) as i32, 0)),
        Key::Char('d') | Key::Right => Some((1, 0)),
        _ => None,
    }
}

/// The direction a cursor key moves the cursor in, if it is one.
pub open spec fn cursor_dir(c: char) -> Option<(i32, i32)> {
    if c == 'i' { Some((0, 1)) }
    else if c == 'k' { Some((0, (-1) as i32)) }
    else if c == 'j' { Some(((-1) as i32, 0)) }
    else if c == 'l' { Some((1, 0)) }
    else { None }
}

/// What an action key does while the game awaits the player's input.
pub open spec fn action_step(ctx: InputContext, o: InputOutcome, key: Key, me: EntityId, pos: GridVec) -> (InputOutcome, Seq<PlayerAction>) {
    let delta = sub_spec(ctx.cursor, pos);
    let on_self = delta.x == 0 && delta.y == 0;
    match move_dir(key) {
        Some((dx, dy)) => (acting(o, 2), seq![PlayerAction::Move { dx, dy }]),
        None => match key {
            Key::Char(c) => if cursor_dir(c) is Some {
                let (dx, dy) = cursor_dir(c)->0;
                (
                    InputOutcome { cursor: gv(ctx.cursor.x + dx, ctx.cursor.y + dy), viewshed_dirty: true, advance_turn: true, ..o },
                    seq![],
                )
            } else if c == 'c' {
                (InputOutcome { cursor: pos, viewshed_dirty: true, advance_turn: true, ..o }, seq![])
            } else if c == 'v' {
                match nearest_from(ctx.hostiles@, pos, 0, None, i32::MAX as int) {
                    Some(t) => {
                        let step = king_step_spec(sub_spec(t, ctx.cursor));
                        (InputOutcome { cursor: add_spec(ctx.cursor, step), viewshed_dirty: true, advance_turn: true, ..o }, seq![])
                    },
                    None => (telling(o, InputNote::NoEnemiesVisible), seq![]),
                }
            } else if c == 't' {
                (telling(InputOutcome { advance_turn: true, ..o }, InputNote::Waiting), seq![])
            } else if c == 'r' {
                (acting(InputOutcome { input: InputState { reload_pending: true, ..o.input }, ..o }, 5), seq![])
            } else if c == 'f' {
                (acting(o, 1), seq![PlayerAction::Kick])
            } else if c == 'g' {
                let step = if on_self { gv(0, -1) } else { king_step_spec(delta) };
                match body_at(ctx.bodies@, add_spec(pos, step), 0) {
                    Some(e) => (acting(o, 1), seq![PlayerAction::Punch { target: e }]),
                    None => (telling(o, InputNote::NothingToPunch), seq![]),
                }
            } else if c == 'e' {
                (InputOutcome { advance_turn: true, ..o }, seq![PlayerAction::Pickup])
            } else if c == 'G' {
                (
                    telling(InputOutcome { god_mode: !ctx.god_mode, ..o }, if !ctx.god_mode { InputNote::GodModeOn } else { InputNote::GodModeOff }),
                    seq![],
                )
            } else if c == 'z' {
                if !has_stamina(ctx.stamina, DIVE_STAMINA_COST as int) {
                    (telling(o, InputNote::NoStaminaToDive), seq![])
                } else if on_self {
                    (telling(o, InputNote::CursorOnSelf), seq![])
                } else {
                    let step = king_step_spec(delta);
                    let mv = PlayerAction::Move { dx: step.x, dy: step.y };
                    (
                        telling(acting(InputOutcome { input: InputState { dive_stamina_pending: DIVE_STAMINA_COST, ..o.input }, ..o }, 0), InputNote::Dove),
                        seq![mv, mv, mv],
                    )
                }
            } else if '1' <= c <= '6' {
                slot_step(ctx, o, (c as int) - ('1' as int), delta)
            } else if c == '7' || c == '8' || c == '9' || c == '0' {
                if !has_stamina(ctx.stamina, ability_cost(c).0) {
                    (telling(o, ability_cost(c).1), seq![])
                } else {
                    ability_step(ctx, o, c, pos, delta)
                }
            } else {
                (o, seq![])
            },
            _ => (o, seq![]),
        },
    }
}

/// What a key press does.
///
/// - Dead or victorious: R requests a restart; after death, T resumes
///   play as a spectator.
/// - No player: nothing.
/// - Spectating while the world awaits input: R requests a restart and
///   stops spectating; any other key lets the world take its turn.
/// - In the pause menu: Q resumes (unpausing a paused game), R restarts.
/// - Otherwise the first key dismisses the welcome screen; Q opens the
///   pause menu (pausing a running game) and ? toggles help; the action
///   keys work only while the game awaits input (see `action_step`).
pub open spec fn input_step(ctx: InputContext, key: Key) -> (InputOutcome, Seq<PlayerAction>) {
    let o = unchanged(ctx);
    if ctx.game_state == GameState::Dead || ctx.game_state == GameState::Victory {
        if key == Key::Char('r') {
            (InputOutcome { restart: true, ..o }, seq![])
        } else if key == Key::Char('t') && ctx.game_state == GameState::Dead {
            (InputOutcome { spectating: true, next_game_state: Some(GameState::Playing), ..o }, seq![])
        } else {
            (o, seq![])
        }
    } else {
        match ctx.player {
            None => (o, seq![]),
            Some((me, pos)) => if ctx.spectating && ctx.awaiting_input {
                if key == Key::Char('r') {
                    (InputOutcome { restart: true, spectating: false, ..o }, seq![])
                } else {
                    (InputOutcome { advance_turn: true, ..o }, seq![])
                }
            } else if ctx.input.mode == InputMode::EscMenu {
                if key == Key::Char('q') {
                    (
                        InputOutcome {
                            input: InputState { mode: InputMode::Game, ..ctx.input },
                            next_game_state: if ctx.game_state == GameState::Paused { Some(GameState::Playing) } else { None },
                            ..o
                        },
                        seq![],
                    )
                } else if key == Key::Char('r') {
                    (InputOutcome { input: InputState { mode: InputMode::Game, ..ctx.input }, restart: true, ..o }, seq![])
                } else {
                    (o, seq![])
                }
            } else if ctx.input.welcome_visible {
                (InputOutcome { input: InputState { welcome_visible: false, ..ctx.input }, ..o }, seq![])
            } else if key == Key::Char('q') {
                (
                    InputOutcome {
                        input: InputState { mode: InputMode::EscMenu, ..ctx.input },
                        next_game_state: if ctx.game_state == GameState::Playing { Some(GameState::Paused) } else { None },
                        ..o
                    },
                    seq![],
                )
            } else if key == Key::Char('?') {
                (InputOutcome { input: InputState { help_visible: !ctx.input.help_visible, ..ctx.input }, ..o }, seq![])
            } else if !ctx.awaiting_input {
                (o, seq![])
            } else {
                action_step(ctx, o, key, me, pos)
            },
        }
    }
}


/// The player acts freely this turn: the game is running, there is a
/// player, no menu or welcome screen is up, it is not spectating, and the
/// world awaits its input.
pub open spec fn in_play(ctx: InputContext) -> bool {
    &&& ctx.game_state != GameState::Dead
    &&& ctx.game_state != GameState::Victory
    &&& ctx.player is Some
    &&& !ctx.spectating
    &&& ctx.input.mode != InputMode::EscMenu
    &&& !ctx.input.welcome_visible
    &&& ctx.awaiting_input
}

/// Where the player stands (the cursor when there is no player).
pub open spec fn player_pos(ctx: InputContext) -> GridVec {
    match ctx.player {
        Some((_, p)) => p,
        None => ctx.cursor,
    }
}

/// A move by `(dx, dy)`: the player walks one tile that way, which takes
/// its turn and two extra ticks, and nothing else changes.
pub open spec fn walked(ctx: InputContext, r: (InputOutcome, Seq<PlayerAction>), dx: i32, dy: i32) -> bool {
    &&& r.1 == seq![PlayerAction::Move { dx, dy }]
    &&& r.0.advance_turn
    &&& r.0.extra_ticks == Some(2i32)
    &&& r.0.cursor == ctx.cursor
    &&& r.0.note is None
}

/// Inventory key `idx` (keys 1 to 6) on a gun, while the player acts
/// freely: an empty gun only notes that it is empty and takes no turn; a
/// loaded one, with the cursor off the player, fires that gun toward the
/// cursor at ranged-attack range and takes the turn.
pub open spec fn gun_slot_law(ctx: InputContext, idx: int, r: (InputOutcome, Seq<PlayerAction>)) -> bool {
    match ctx.items {
        Some(v) => if 0 <= idx < v@.len() {
            match v@[idx].1 {
                Some(ItemKind::Gun { loaded, .. }) => {
                    &&& loaded <= 0 ==> r.0.note == Some(InputNote::GunEmpty) && r.1.len() == 0 && !r.0.advance_turn
                    &&& loaded > 0 && ctx.cursor != player_pos(ctx) ==> {
                        &&& r.1 == seq![
                            PlayerAction::Shoot {
                                gun: v@[idx].0,
                                dx: (ctx.cursor.x - player_pos(ctx).x) as i32,
                                dy: (ctx.cursor.y - player_pos(ctx).y) as i32,
                                range: RANGED_ATTACK_RANGE,
                            },
                        ]
                        &&& r.0.advance_turn
                    }
                },
                _ => true,
            }
        } else {
            true
        },
        None => true,
    }
}

/// What moving and auto-aiming do while the player acts freely: W or up
/// walks north, S or down south, A or left west, D or right east; V moves
/// the cursor one king step toward a nearest visible hostile (taking the
/// turn), and with none in sight only notes that no enemy is visible.
pub open spec fn move_and_aim_law(ctx: InputContext, key: Key, r: (InputOutcome, Seq<PlayerAction>)) -> bool {
    in_play(ctx) ==> {
        &&& (key == Key::Char('w') || key == Key::Up) ==> walked(ctx, r, 0, 1)
        &&& (key == Key::Char('s') || key == Key::Down) ==> walked(ctx, r, 0, (-1) as i32)
        &&& (key == Key::Char('a') || key == Key::Left) ==> walked(ctx, r, (-1) as i32, 0)
        &&& (key == Key::Char('d') || key == Key::Right) ==> walked(ctx, r, 1, 0)
        &&& key == Key::Char('v') && ctx.hostiles@.len() > 0 ==> {
            &&& exists|t: GridVec|
                #[trigger] is_nearest(ctx.hostiles@, player_pos(ctx), t) && r.0.cursor == add_spec(
                    ctx.cursor,
                    king_step_spec(sub_spec(t, ctx.cursor)),
                )
            &&& r.0.advance_turn
            &&& r.0.viewshed_dirty
            &&& r.0.note is None
            &&& r.1.len() == 0
        }
        &&& forall|c: char| key == Key::Char(c) && '1' <= c <= '6' ==> #[trigger] gun_slot_law(ctx, (c as int) - ('1' as int), r)
        &&& key == Key::Char('v') && ctx.hostiles@.len() == 0 ==> {
            &&& r.0.note == Some(InputNote::NoEnemiesVisible)
            &&& r.0.cursor == ctx.cursor
            &&& !r.0.advance_turn
            &&& r.1.len() == 0
        }
    }
}

/// Moving and auto-aiming behave as `move_and_aim_law` says.
pub proof fn law_move_and_aim(ctx: InputContext, key: Key)
    requires
        context_ok(ctx),
    ensures
        move_and_aim_law(ctx, key, input_step(ctx, key)),
{
    if let Some((me, pos)) = ctx.player {
        law_auto_aim_nearest(ctx.hostiles@, pos);
        if in_play(ctx) && key == Key::Char('v') && ctx.hostiles@.len() > 0 {
            let t = nearest_from(ctx.hostiles@, pos, 0, None, i32::MAX as int)->0;
            assert(player_pos(ctx) == pos);
            assert(is_nearest(ctx.hostiles@, player_pos(ctx), t));
        }
    }
}

/// The nearest hostile to `from` (see `nearest_from`).
fn nearest_hostile(hs: &Vec<GridVec>, from: GridVec) -> (r: Option<GridVec>)
    requires
        coord_ok(from),
        forall|i: int| 0 <= i < hs@.len() ==> coord_ok(#[trigger] hs@[i]),
    ensures
        r == nearest_from(hs@, from, 0, None, i32::MAX as int),
        r matches Some(t) ==> coord_ok(t),
        r is None <==> hs@.len() == 0,
        r matches Some(t) ==> is_nearest(hs@, from, t),
{
    proof {
        law_auto_aim_nearest(hs@, from);
    }
    let mut best: Option<GridVec> = None;
    let mut best_d: i32 = i32::MAX;
    let mut i: usize = 0;
    while i < hs.len()
        invariant
            i <= hs@.len(),
            coord_ok(from),
            forall|k: int| 0 <= k < hs@.len() ==> coord_ok(#[trigger] hs@[k]),
            best matches Some(t) ==> coord_ok(t),
            nearest_from(hs@, from, 0, None, i32::MAX as int) == nearest_from(hs@, from, i as int, best, best_d as int),
        decreases hs@.len() - i,
    {
        let h = hs[i];
        proof {
            assert(coord_ok(hs@[i as int]));
        }
        let d = from.chebyshev_distance(h);
        if d < best_d {
            best_d = d;
            best = Some(h);
        }
        i = i + 1;
    }
    best
}

/// The first entity with health on tile `t` (see `body_at`).
fn body_on(bodies: &Vec<(GridVec, EntityId)>, t: GridVec) -> (r: Option<EntityId>)
    ensures
        r == body_at(bodies@, t, 0),
{
    let mut i: usize = 0;
    while i < bodies.len()
        invariant
            i <= bodies@.len(),
            body_at(bodies@, t, 0) == body_at(bodies@, t, i as int),
        decreases bodies@.len() - i,
    {
        if bodies[i].0 == t {
            return Some(bodies[i].1);
        }
        i = i + 1;
    }
    None
}

/// Whether a gun's name holds "Starr" (see `names_starr`).
fn is_starr(name: &String) -> (r: bool)
    ensures
        r == names_starr(vstd::utf8::encode_utf8(name@)),
{
    let b = name.as_str().as_bytes();
    let ghost bs = vstd::utf8::encode_utf8(name@);
    assert(b@ == bs);
    let n = b.len();
    if n < 5 {
        proof {
            assert forall|i: int| 0 <= i && i + 5 <= bs.len() implies #[trigger] bs.subrange(i, i + 5) != seq![83u8, 116u8, 97u8, 114u8, 114u8] by {}
        }
        return false;
    }
    let mut i: usize = 0;
    while i < n - 4
        invariant
            n == b@.len(),
            n >= 5,
            b@ == bs,
            bs == vstd::utf8::encode_utf8(name@),
            i <= n - 4,
            forall|k: int| 0 <= k < i ==> #[trigger] bs.subrange(k, k + 5) != seq![83u8, 116u8, 97u8, 114u8, 114u8],
        decreases n - i,
    {
        if b[i] == 83u8 && b[i + 1] == 116u8 && b[i + 2] == 97u8 && b[i + 3] == 114u8 && b[i + 4] == 114u8 {
            proof {
                assert(bs.subrange(i as int, i + 5) =~= seq![83u8, 116u8, 97u8, 114u8, 114u8]);
                assert(names_starr(bs));
                assert(bs == vstd::utf8::encode_utf8(name@));
            }
            return true;
        }
        proof {
            let w = bs.subrange(i as int, i + 5);
            if w == seq![83u8, 116u8, 97u8, 114u8, 114u8] {
                assert(w[0] == b@[i as int]);
                assert(w[1] == b@[i + 1]);
                assert(w[2] == b@[i + 2]);
                assert(w[3] == b@[i + 3]);
                assert(w[4] == b@[i + 4]);
            }
        }
        i = i + 1;
    }
    false
}

/// Handles one key press (see `input_step`): returns what changes and the
/// actions the player takes, in order.
pub fn handle_key(ctx: &InputContext, key: Key) -> (r: (InputOutcome, Vec<PlayerAction>))
    requires
        context_ok(*ctx),
    ensures
        (r.0, r.1@) == input_step(*ctx, key),
        move_and_aim_law(*ctx, key, (r.0, r.1@)),
{
    proof {
        law_move_and_aim(*ctx, key);
    }
    let o = InputOutcome {
        input: ctx.input,
        cursor: ctx.cursor,
        god_mode: ctx.god_mode,
        spectating: ctx.spectating,
        restart: false,
        next_game_state: None,
        advance_turn: false,
        extra_ticks: None,
        viewshed_dirty: false,
        note: None,
    };
    let mut acts: Vec<PlayerAction> = Vec::new();
    if ctx.game_state == GameState::Dead || ctx.game_state == GameState::Victory {
        if key == Key::Char('r') {
            return (InputOutcome { restart: true, ..o }, acts);
        } else if key == Key::Char('t') && ctx.game_state == GameState::Dead {
            return (InputOutcome { spectating: true, next_game_state: Some(GameState::Playing), ..o }, acts);
        }
        return (o, acts);
    }
    let (me, pos) = match ctx.player {
        None => {
            return (o, acts);
        },
        Some(p) => p,
    };
    if ctx.spectating && ctx.awaiting_input {
        if key == Key::Char('r') {
            return (InputOutcome { restart: true, spectating: false, ..o }, acts);
        }
        return (InputOutcome { advance_turn: true, ..o }, acts);
    }
    if ctx.input.mode == InputMode::EscMenu {
        if key == Key::Char('q') {
            let next = if ctx.game_state == GameState::Paused { Some(GameState::Playing) } else { None };
            return (InputOutcome { input: InputState { mode: InputMode::Game, ..ctx.input }, next_game_state: next, ..o }, acts);
        } else if key == Key::Char('r') {
            return (InputOutcome { input: InputState { mode: InputMode::Game, ..ctx.input }, restart: true, ..o }, acts);
        }
        return (o, acts);
    }
    if ctx.input.welcome_visible {
        return (InputOutcome { input: InputState { welcome_visible: false, ..ctx.input }, ..o }, acts);
    }
    if key == Key::Char('q') {
        let next = if ctx.game_state == GameState::Playing { Some(GameState::Paused) } else { None };
        return (InputOutcome { input: InputState { mode: InputMode::EscMenu, ..ctx.input }, next_game_state: next, ..o }, acts);
    }
    if key == Key::Char('?') {
        return (InputOutcome { input: InputState { help_visible: !ctx.input.help_visible, ..ctx.input }, ..o }, acts);
    }
    if !ctx.awaiting_input {
        return (o, acts);
    }
    let delta = ctx.cursor - pos;
    let on_self = delta.x == 0 && delta.y == 0;
    let dir: Option<(i32, i32)> = match key {
        Key::Char('w') | Key::Up => Some((0, 1)),
        Key::Char('s') | Key::Down => Some((0, -1)),
        Key::Char('a') | Key::Left => Some((-1, 0)),
        Key::Char('d') | Key::Right => Some((1, 0)),
        _ => None,
    };
    if let Some((dx, dy)) = dir {
        acts.push(PlayerAction::Move { dx, dy });
        return (InputOutcome { advance_turn: true, extra_ticks: Some(2), ..o }, acts);
    }
    let c = match key {
        Key::Char(c) => c,
        _ => {
            return (o, acts);
        },
    };
    let cdir: Option<(i32, i32)> = if c == 'i' {
        Some((0, 1))
    } else if c == 'k' {
        Some((0, -1))
    } else if c == 'j' {
        Some((-1, 0))
    } else if c == 'l' {
        Some((1, 0))
    } else {
        None
    };
    if let Some((dx, dy)) = cdir {
        let moved = GridVec::new(ctx.cursor.x + dx, ctx.cursor.y + dy);
        return (InputOutcome { cursor: moved, viewshed_dirty: true, advance_turn: true, ..o }, acts);
    }
    if c == 'c' {
        return (InputOutcome { cursor: pos, viewshed_dirty: true, advance_turn: true, ..o }, acts);
    }
    if c == 'v' {
        return match nearest_hostile(&ctx.hostiles, pos) {
            Some(t) => {
                let step = (t - ctx.cursor).king_step();
                (InputOutcome { cursor: ctx.cursor + step, viewshed_dirty: true, advance_turn: true, ..o }, acts)
            },
            None => (InputOutcome { note: Some(InputNote::NoEnemiesVisible), ..o }, acts),
        };
    }
    if c == 't' {
        return (InputOutcome { advance_turn: true, note: Some(InputNote::Waiting), ..o }, acts);
    }
    if c == 'r' {
        return (
            InputOutcome { input: InputState { reload_pending: true, ..o.input }, advance_turn: true, extra_ticks: Some(5), ..o },
            acts,
        );
    }
    if c == 'f' {
        acts.push(PlayerAction::Kick);
        return (InputOutcome { advance_turn: true, extra_ticks: Some(1), ..o }, acts);
    }
    if c == 'g' {
        let step = if on_self { GridVec::new(0, -1) } else { delta.king_step() };
        return match body_on(&ctx.bodies, pos + step) {
            Some(e) => {
                acts.push(PlayerAction::Punch { target: e });
                (InputOutcome { advance_turn: true, extra_ticks: Some(1), ..o }, acts)
            },
            None => (InputOutcome { note: Some(InputNote::NothingToPunch), ..o }, acts),
        };
    }
    if c == 'e' {
        acts.push(PlayerAction::Pickup);
        return (InputOutcome { advance_turn: true, ..o }, acts);
    }
    if c == 'G' {
        let note = if !ctx.god_mode { InputNote::GodModeOn } else { InputNote::GodModeOff };
        return (InputOutcome { god_mode: !ctx.god_mode, note: Some(note), ..o }, acts);
    }
    let stamina_at_least = |cost: i32| -> (b: bool)
        ensures
            b == has_stamina(ctx.stamina, cost as int),
        {
            match ctx.stamina {
                Some(s) => s >= cost,
                None => false,
            }
        };
    if c == 'z' {
        if !stamina_at_least(DIVE_STAMINA_COST) {
            return (InputOutcome { note: Some(InputNote::NoStaminaToDive), ..o }, acts);
        }
        if on_self {
            return (InputOutcome { note: Some(InputNote::CursorOnSelf), ..o }, acts);
        }
        let step = delta.king_step();
        let mv = PlayerAction::Move { dx: step.x, dy: step.y };
        acts.push(mv);
        acts.push(mv);
        acts.push(mv);
        return (
            InputOutcome {
                input: InputState { dive_stamina_pending: DIVE_STAMINA_COST, ..o.input },
                advance_turn: true,
                extra_ticks: Some(0),
                note: Some(InputNote::Dove),
                ..o
            },
            acts,
        );
    }
    if '1' <= c && c <= '6' {
        let idx: usize = (c as u32 - '1' as u32) as usize;
        let slot: Option<&CarriedItem> = match &ctx.items {
            Some(v) => if idx < v.len() { Some(&v[idx]) } else { None },
            None => None,
        };
        if let Some(carried) = slot {
            let item = carried.0;
            match &carried.1 {
                Some(ItemKind::Gun { loaded, name, .. }) => {
                    if *loaded <= 0 {
                        return (InputOutcome { note: Some(InputNote::GunEmpty), ..o }, acts);
                    }
                    if on_self {
                        return (InputOutcome { note: Some(InputNote::CursorOnSelf), ..o }, acts);
                    }
                    let extra = if is_starr(name) { 0 } else { 1 };
                    acts.push(PlayerAction::Shoot { gun: item, dx: delta.x, dy: delta.y, range: RANGED_ATTACK_RANGE });
                    return (InputOutcome { advance_turn: true, extra_ticks: Some(extra), ..o }, acts);
                },
                Some(ItemKind::Knife { attack, .. }) | Some(ItemKind::Tomahawk { attack, .. }) => {
                    if on_self {
                        return (InputOutcome { note: Some(InputNote::CursorOnSelf), ..o }, acts);
                    }
                    acts.push(PlayerAction::Throw { index: idx, item, dx: delta.x, dy: delta.y, range: THROWN_RANGE, damage: *attack });
                    return (InputOutcome { advance_turn: true, extra_ticks: Some(1), ..o }, acts);
                },
                Some(ItemKind::Grenade { .. }) => {
                    if !stamina_at_least(SPELL_STAMINA_COST) {
                        return (InputOutcome { note: Some(InputNote::NoStamina), ..o }, acts);
                    }
                    acts.push(PlayerAction::Grenade { index: idx, target: ctx.cursor, radius: SPELL_RADIUS });
                    return (InputOutcome { advance_turn: true, extra_ticks: Some(1), ..o }, acts);
                },
                Some(ItemKind::Molotov { damage, radius, .. }) => {
                    if !stamina_at_least(SPELL_STAMINA_COST) {
                        return (InputOutcome { note: Some(InputNote::NoStamina), ..o }, acts);
                    }
                    acts.push(PlayerAction::Molotov { index: idx, target: ctx.cursor, radius: *radius, damage: *damage });
                    return (InputOutcome { advance_turn: true, extra_ticks: Some(1), ..o }, acts);
                },
                _ => {},
            }
        }
        acts.push(PlayerAction::UseItem { index: idx });
        return (InputOutcome { advance_turn: true, ..o }, acts);
    }
    if c == '7' || c == '8' || c == '9' || c == '0' {
        let (cost, short) = if c == '7' {
            (DUAL_WIELD_STAMINA_COST, InputNote::NoStaminaForDualWield)
        } else if c == '8' {
            (FAN_SHOT_STAMINA_COST, InputNote::NoStaminaForFanShot)
        } else if c == '9' {
            (SAND_STAMINA_COST, InputNote::NoStamina)
        } else {
            (THROW_ITEM_STAMINA_COST, InputNote::NoStaminaToThrow)
        };
        if !stamina_at_least(cost) {
            return (InputOutcome { note: Some(short), ..o }, acts);
        }
        let items: Option<&[CarriedItem]> = match &ctx.items {
            Some(v) => Some(v.as_slice()),
            None => None,
        };
        if c == '7' {
            let o1 = InputOutcome { input: InputState { ability_stamina_pending: DUAL_WIELD_STAMINA_COST, ..o.input }, ..o };
            return match dual_wield(delta, items, &ctx.rng, ctx.seed) {
                DualWield::CursorOnSelf => (InputOutcome { note: Some(InputNote::CursorOnSelf), ..o1 }, acts),
                DualWield::NoInventory => (InputOutcome { note: Some(InputNote::NoInventory), ..o1 }, acts),
                DualWield::TooFewGuns => (InputOutcome { note: Some(InputNote::TooFewRevolvers), ..o1 }, acts),
                DualWield::Fire(a, b) => {
                    acts.push(PlayerAction::Shoot { gun: a, dx: delta.x, dy: delta.y, range: RANGED_ATTACK_RANGE });
                    acts.push(PlayerAction::Shoot { gun: b, dx: delta.x, dy: delta.y, range: RANGED_ATTACK_RANGE });
                    (InputOutcome { advance_turn: true, extra_ticks: Some(1), note: Some(InputNote::DualWieldShot), ..o1 }, acts)
                },
            };
        }
        if c == '8' {
            let o1 = InputOutcome { input: InputState { ability_stamina_pending: FAN_SHOT_STAMINA_COST, ..o.input }, ..o };
            return match fan_shot(delta, items, &ctx.rng, ctx.seed) {
                FanShot::CursorOnSelf => (InputOutcome { note: Some(InputNote::CursorOnSelf), ..o1 }, acts),
                FanShot::NoInventory => (InputOutcome { note: Some(InputNote::NoInventory), ..o1 }, acts),
                FanShot::NoLoadedGun => (InputOutcome { note: Some(InputNote::NoLoadedRevolver), ..o1 }, acts),
                FanShot::Fire { gun, rounds } => {
                    let shot = PlayerAction::Shoot { gun, dx: delta.x, dy: delta.y, range: RANGED_ATTACK_RANGE };
                    let mut k: i32 = 0;
                    while k < rounds
                        invariant
                            0 <= k,
                            rounds > 0 ==> k <= rounds,
                            rounds <= 0 ==> k == 0,
                            acts@.len() == k,
                            forall|j: int| 0 <= j < k ==> #[trigger] acts@[j] == shot,
                        decreases rounds - k,
                    {
                        acts.push(shot);
                        k = k + 1;
                    }
                    proof {
                        let want = Seq::new(
                            (if rounds > 0 { rounds as int } else { 0 }) as nat,
                            |i: int| PlayerAction::Shoot { gun, dx: delta.x, dy: delta.y, range: RANGED_ATTACK_RANGE },
                        );
                        assert(acts@.len() == want.len());
                        assert forall|j: int| 0 <= j < want.len() implies acts@[j] == want[j] by {}
                        assert(acts@ =~= want);
                    }
                    (InputOutcome { advance_turn: true, extra_ticks: Some(2), note: Some(InputNote::FanShot(rounds)), ..o1 }, acts)
                },
            };
        }
        if c == '9' {
            if on_self {
                return (InputOutcome { note: Some(InputNote::CursorOnSelf), ..o }, acts);
            }
            let step = delta.king_step();
            let target = GridVec::new(pos.x + step.x * 2, pos.y + step.y * 2);
            acts.push(PlayerAction::SandCloud { target, radius: 2 });
            return (
                InputOutcome {
                    input: InputState { ability_stamina_pending: SAND_STAMINA_COST, ..o.input },
                    advance_turn: true,
                    extra_ticks: Some(0),
                    note: Some(InputNote::SandThrown),
                    ..o
                },
                acts,
            );
        }
        let o1 = InputOutcome { input: InputState { ability_stamina_pending: THROW_ITEM_STAMINA_COST, ..o.input }, ..o };
        return match throw_random(delta, items, &ctx.rng, ctx.seed) {
            ThrowRandom::CursorOnSelf => (InputOutcome { note: Some(InputNote::CursorOnSelf), ..o1 }, acts),
            ThrowRandom::NoInventory => (InputOutcome { note: Some(InputNote::NoInventory), ..o1 }, acts),
            ThrowRandom::EmptyInventory => (InputOutcome { note: Some(InputNote::InventoryEmpty), ..o1 }, acts),
            ThrowRandom::Throw { index, item, damage } => {
                acts.push(PlayerAction::Throw { index, item, dx: delta.x, dy: delta.y, range: THROWN_RANGE, damage });
                (InputOutcome { advance_turn: true, extra_ticks: Some(1), ..o1 }, acts)
            },
        };
    }
    (o, acts)
}

} // verus!
