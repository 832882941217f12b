//! Entity components and the small amount of logic they carry: health,
//! stamina, the energy scheduler, weapons and inventories.
use vstd::prelude::*;

use crate::grid_vec::{CoordinateUnit, GridVec};

verus! {

/// Identifier of a game entity (the bit pattern of the engine's entity
/// handle).
#[derive(Clone, Copy, Debug, PartialEq, Eq, Structural, Hash, PartialOrd, Ord)]
pub struct EntityId(pub u64);

/// World-grid position for any entity.
#[derive(Clone, Copy, Debug, PartialEq, Eq, Structural)]
pub struct Position {
    pub x: CoordinateUnit,
    pub y: CoordinateUnit,
}

impl Position {
    /// Convert to a `GridVec` for vector arithmetic and distance
    /// calculations.
    pub fn as_grid_vec(self) -> (r: GridVec)
        ensures
            r.x == self.x,
            r.y == self.y,
    {
        GridVec::new(self.x, self.y)
    }
}

impl core::convert::From<GridVec> for Position {
    fn from(v: GridVec) -> (r: Position) {
        Position { x: v.x, y: v.y }
    }
}

impl vstd::std_specs::convert::FromSpecImpl<GridVec> for Position {
    open spec fn obeys_from_spec() -> bool {
        true
    }

    open spec fn from_spec(v: GridVec) -> Position {
        Position { x: v.x, y: v.y }
    }
}

impl core::convert::From<Position> for GridVec {
    fn from(p: Position) -> (r: GridVec) {
        GridVec { x: p.x, y: p.y }
    }
}

impl vstd::std_specs::convert::FromSpecImpl<Position> for GridVec {
    open spec fn obeys_from_spec() -> bool {
        true
    }

    open spec fn from_spec(p: Position) -> GridVec {
        GridVec { x: p.x, y: p.y }
    }
}

/// Health pool for any entity that can take damage or be healed.
///
/// The methods keep `0 <= current <= max` whenever it held before.
#[derive(Clone, Copy, Debug, PartialEq, Eq, Structural)]
pub struct Health {
    pub current: CoordinateUnit,
    pub max: CoordinateUnit,
}

/// The damage actually dealt: the requested amount, capped by the current
/// health and never negative.
pub open spec fn damage_dealt(current: int, amount: int) -> int {
    let capped = if amount < current { amount } else { current };
    if capped < 0 { 0 } else { capped }
}

/// The health actually restored: the requested amount, capped by the
/// missing health and never negative.
pub open spec fn health_restored(current: int, max: int, amount: int) -> int {
    let missing = max - current;
    let capped = if amount < missing { amount } else { missing };
    if capped < 0 { 0 } else { capped }
}

/// Damage taken from health `current` by a hit of `amount` is `dealt`:
/// never negative and never more than the hit; a hit the health can
/// absorb is taken whole; a hit at least as large as a non-negative
/// health takes all of it; a non-positive hit, or health already gone,
/// takes nothing.
pub open spec fn damage_law(current: int, amount: int, dealt: int) -> bool {
    &&& dealt >= 0
    &&& amount >= 0 ==> dealt <= amount
    &&& 0 <= amount <= current ==> dealt == amount
    &&& amount >= current >= 0 ==> current - dealt == 0
    &&& amount <= 0 ==> dealt == 0
    &&& current <= 0 ==> dealt == 0
}

/// Healing `amount` from health `current` below maximum `max` restores
/// `restored`: never negative and never more than asked; healing that
/// fits is restored whole; healing at least the missing health fills the
/// pool to `max`; a non-positive amount, or a full pool, restores nothing.
pub open spec fn heal_law(current: int, max: int, amount: int, restored: int) -> bool {
    &&& restored >= 0
    &&& amount >= 0 ==> restored <= amount
    &&& 0 <= amount <= max - current ==> restored == amount
    &&& amount >= max - current >= 0 ==> current + restored == max
    &&& amount <= 0 ==> restored == 0
    &&& current >= max ==> restored == 0
}

/// Damage and healing obey their laws for every health and amount.
pub proof fn law_damage_and_healing(current: int, max: int, amount: int)
    ensures
        damage_law(current, amount, damage_dealt(current, amount)),
        heal_law(current, max, amount, health_restored(current, max, amount)),
{
}

impl Health {
    /// Whether the health pool respects `0 <= current <= max`.
    pub open spec fn valid(self) -> bool {
        0 <= self.current <= self.max
    }

    /// Applies `amount` damage and returns the damage actually dealt
    /// (less than `amount` when the current health is lower).
    pub fn apply_damage(&mut self, amount: CoordinateUnit) -> (actual: CoordinateUnit)
        ensures
            actual == damage_dealt(old(self).current as int, amount as int),
            damage_law(old(self).current as int, amount as int, actual as int),
            final(self).current == old(self).current - actual,
            final(self).max == old(self).max,
            old(self).valid() ==> final(self).valid(),
    {
        let capped = if amount < self.current { amount } else { self.current };
        let actual = if capped < 0 { 0 } else { capped };
        self.current = self.current - actual;
        actual
    }

    /// Heals by `amount` and returns the health actually restored (less
    /// than `amount` near the maximum).
    pub fn heal(&mut self, amount: CoordinateUnit) -> (actual: CoordinateUnit)
        requires
            i32::MIN <= old(self).max - old(self).current <= i32::MAX,
        ensures
            actual == health_restored(old(self).current as int, old(self).max as int, amount as int),
            heal_law(old(self).current as int, old(self).max as int, amount as int, actual as int),
            final(self).current == old(self).current + actual,
            final(self).max == old(self).max,
            old(self).valid() ==> final(self).valid(),
    {
        let missing = self.max - self.current;
        let capped = if amount < missing { amount } else { missing };
        let actual = if capped < 0 { 0 } else { capped };
        self.current = self.current + actual;
        actual
    }

    /// Returns `true` when the entity should be considered dead.
    pub fn is_dead(&self) -> (r: bool)
        ensures
            r == (self.current <= 0),
    {
        self.current <= 0
    }
}

/// Combat statistics used by the combat system to resolve attacks.
#[derive(Clone, Copy, Debug, PartialEq, Eq, Structural)]
pub struct CombatStats {
    pub attack: CoordinateUnit,
}

impl CombatStats {
    /// The raw damage this attacker deals: its attack, never negative.
    pub fn damage_against(&self) -> (r: CoordinateUnit)
        ensures
            r == (if self.attack < 0 { 0 } else { self.attack as int }),
    {
        if self.attack < 0 { 0 } else { self.attack }
    }
}

/// Display name for any entity.
#[derive(Clone, Debug)]
pub struct Name(pub String);

/// The display string of an optional `Name`, falling back to `"???"`.
pub fn display_name(name: Option<&Name>) -> (r: &str)
    ensures
        match name {
            Some(n) => r@ == n.0@,
            None => r@ == "???"@,
        },
{
    match name {
        Some(n) => n.0.as_str(),
        None => "???",
    }
}

/// The display string of an optional `Name`, falling back to `"item"`.
pub fn item_display_name(name: Option<&Name>) -> (r: &str)
    ensures
        match name {
            Some(n) => r@ == n.0@,
            None => r@ == "item"@,
        },
{
    match name {
        Some(n) => n.0.as_str(),
        None => "item",
    }
}

/// The energy threshold required to perform one action.
pub const ACTION_COST: CoordinateUnit = 100;

/// Stamina cost for casting area grenades and molotov cocktails.
pub const SPELL_STAMINA_COST: CoordinateUnit = 10;

/// Movement speed: the energy an entity gains each world tick.
#[derive(Clone, Copy, Debug, PartialEq, Eq, Structural)]
pub struct Speed(pub CoordinateUnit);

/// Accumulated action energy. When `energy >= ACTION_COST`, the entity
/// may act; acting costs `ACTION_COST` and excess energy carries over.
#[derive(Clone, Copy, Debug, PartialEq, Eq, Structural)]
pub struct Energy(pub CoordinateUnit);

impl Energy {
    /// Returns `true` when this entity has accumulated enough energy to act.
    pub fn can_act(&self) -> (r: bool)
        ensures
            r == (self.0 >= ACTION_COST),
    {
        self.0 >= ACTION_COST
    }

    /// Deducts `ACTION_COST`, leaving any excess for the next tick.
    pub fn spend_action(&mut self)
        requires
            old(self).0 - ACTION_COST >= i32::MIN,
        ensures
            final(self).0 == old(self).0 - ACTION_COST,
    {
        self.0 = self.0 - ACTION_COST;
    }

    /// One tick of the energy scheduler: `energy += speed`.
    pub fn accumulate(&mut self, speed: &Speed)
        requires
            i32::MIN <= old(self).0 + speed.0 <= i32::MAX,
        ensures
            final(self).0 == old(self).0 + speed.0,
    {
        self.0 = self.0 + speed.0;
    }
}

/// The energy left and the actions taken after `ticks` world ticks at the
/// given speed, starting from zero energy, when the entity acts as many
/// times as it can after each tick.
pub open spec fn schedule(ticks: nat, speed: int) -> (int, int)
    decreases ticks,
{
    if ticks == 0 {
        (0, 0)
    } else {
        let (e, a) = schedule((ticks - 1) as nat, speed);
        let charged = e + speed;
        (charged % ACTION_COST as int, a + charged / ACTION_COST as int)
    }
}

/// Scheduling fairness: over `n` ticks an entity with speed `s >= 0`
/// takes exactly `floor(n * s / ACTION_COST)` actions, and the energy it
/// carries over is the remainder.
pub proof fn law_energy_fairness(n: nat, s: int)
    requires
        s >= 0,
    ensures
        schedule(n, s).1 == (n * s) / ACTION_COST as int,
        schedule(n, s).0 == (n * s) % ACTION_COST as int,
    decreases n,
{
    if n == 0 {
        assert(n * s == 0);
    } else {
        law_energy_fairness((n - 1) as nat, s);
        let p = ((n - 1) * s) as int;
        assert(n * s == p + s) by (nonlinear_arith)
            requires p == (n - 1) * s;
        let e = p % 100;
        let a = p / 100;
        let charged = e + s;
        vstd::arithmetic::div_mod::lemma_fundamental_div_mod(p, 100);
        vstd::arithmetic::div_mod::lemma_fundamental_div_mod(charged, 100);
        vstd::arithmetic::div_mod::lemma_mod_bound(charged, 100);
        assert(p + s == (a + charged / 100) * 100 + charged % 100) by (nonlinear_arith)
            requires
                p == 100 * a + e,
                charged == 100 * (charged / 100) + charged % 100,
                charged == e + s;
        vstd::arithmetic::div_mod::lemma_fundamental_div_mod_converse(
            p + s,
            100,
            a + charged / 100,
            charged % 100,
        );
    }
}

/// Behaviour state of a non-player entity.
#[derive(Clone, Copy, Debug, PartialEq, Eq, Structural)]
pub enum AiState {
    /// Stationary: has not seen a target yet.
    Idle,
    /// Actively pursuing a target.
    Chasing,
    /// Moving along a patrol route or wandering.
    Patrolling,
    /// Retreating: health is critical and no healing is available.
    Fleeing,
}

/// The direction an NPC is looking, and the number of 45 degree steps left
/// in a circular look-around (0 when none is in progress).
#[derive(Clone, Copy, Debug, PartialEq, Eq, Structural)]
pub struct AiLookDir(pub GridVec, pub u8);

/// The position an NPC considers home and patrols around.
#[derive(Clone, Copy, Debug, PartialEq, Eq, Structural)]
pub struct PatrolOrigin(pub GridVec);

/// What an NPC remembers about its last target.
#[derive(Clone, Copy, Debug, PartialEq, Eq, Structural)]
pub struct AiMemory {
    /// Last known position of the chase target.
    pub last_known_pos: Option<GridVec>,
    /// Turn number when the target was last seen.
    pub last_seen_turn: u32,
    /// Number of failed 360 degree search sweeps at the last-known position.
    pub search_attempts: u8,
    /// Cursor steps taken since the last shot.
    pub cursor_steps: u8,
    /// Consecutive turns the NPC has stayed on the same tile.
    pub stationary_turns: u8,
    /// Previous position, used to detect standing still.
    pub prev_pos: Option<GridVec>,
}

impl core::default::Default for AiMemory {
    fn default() -> (r: AiMemory)
        ensures
            r.last_known_pos.is_none(),
            r.last_seen_turn == 0,
            r.search_attempts == 0,
            r.cursor_steps == 0,
            r.stationary_turns == 0,
            r.prev_pos.is_none(),
    {
        AiMemory {
            last_known_pos: None,
            last_seen_turn: 0,
            search_attempts: 0,
            cursor_steps: 0,
            stationary_turns: 0,
            prev_pos: None,
        }
    }
}

/// How an NPC approaches ranged combat.
#[derive(Clone, Copy, Debug, PartialEq, Eq, Structural)]
pub enum AimingStyle {
    /// Takes extra turns tracking the cursor onto the target before firing.
    CarefulAim,
    /// Fires quickly with reduced accuracy.
    SnapShot,
    /// Fires vaguely in the target's direction.
    Suppression,
}

/// Aim cursor shared by the player and NPCs.
#[derive(Clone, Copy, Debug, PartialEq, Eq, Structural)]
pub struct Cursor {
    /// Current aim cursor position in world coordinates.
    pub pos: GridVec,
}

/// Persistent target tracking for NPC AI.
#[derive(Clone, Copy, Debug, PartialEq, Eq, Structural)]
pub struct AiTarget {
    /// The entity being pursued.
    pub entity: EntityId,
    /// Last known position of the target.
    pub last_pos: GridVec,
    /// Turn number when the target was last seen.
    pub last_seen: u32,
    /// Hard lock: set when the NPC has fired at or taken fire from this
    /// target.
    pub locked: bool,
}

/// Extended awareness range during active pursuit.
#[derive(Clone, Copy, Debug, PartialEq, Eq, Structural)]
pub struct AiPursuitBoost {
    /// Extra awareness range (in tiles) added during pursuit.
    pub extra_range: i32,
    /// Turn when the target was last spotted.
    pub last_spotted_turn: u32,
}

/// Faction affiliation.
#[derive(Clone, Copy, Debug, PartialEq, Eq, Structural, Hash)]
pub enum Faction {
    Wildlife,
    Outlaws,
    Lawmen,
    Vaqueros,
    /// Town civilians: shopkeepers, townsfolk.
    Civilians,
    /// Native American faction.
    Apache,
    /// Police officers and deputies.
    Police,
}

/// Bullet caliber for cap-and-ball revolvers and rifles.
#[derive(Clone, Copy, Debug, PartialEq, Eq, Structural, Hash)]
pub enum Caliber {
    /// .31 caliber (Colt Pocket)
    Cal31,
    /// .36 caliber (Colt Navy, Colt Sheriff, Savage 1856)
    Cal36,
    /// .44 caliber (Colt Army, Remington New Model Army, Starr 1858, Adams)
    Cal44,
    /// .50 caliber (Hawken Rifle)
    Cal50,
    /// .58 caliber (Springfield Model 1855)
    Cal58,
    /// .577 caliber (Enfield Pattern 1853)
    Cal577,
    /// .69 caliber (Springfield Model 1842)
    Cal69,
}

/// Base damage of a caliber: the caliber number in hundredths of an inch
/// (.577 is truncated to 57).
pub open spec fn caliber_damage(c: Caliber) -> int {
    match c {
        Caliber::Cal31 => 31,
        Caliber::Cal36 => 36,
        Caliber::Cal44 => 44,
        Caliber::Cal50 => 50,
        Caliber::Cal58 => 58,
        Caliber::Cal577 => 57,
        Caliber::Cal69 => 69,
    }
}

impl Caliber {
    /// Returns the base damage for this caliber.
    pub fn damage(&self) -> (r: i32)
        ensures
            r == caliber_damage(*self),
    {
        match self {
            Caliber::Cal31 => 31,
            Caliber::Cal36 => 36,
            Caliber::Cal44 => 44,
            Caliber::Cal50 => 50,
            Caliber::Cal58 => 58,
            Caliber::Cal577 => 57,
            Caliber::Cal69 => 69,
        }
    }

    /// The caliber's label, such as ".44".
    pub fn label(&self) -> (r: &str)
        ensures
            r@ == caliber_label(*self)@,
    {
        match self {
            Caliber::Cal31 => ".31",
            Caliber::Cal36 => ".36",
            Caliber::Cal44 => ".44",
            Caliber::Cal50 => ".50",
            Caliber::Cal58 => ".58",
            Caliber::Cal577 => ".577",
            Caliber::Cal69 => ".69",
        }
    }
}

/// The printed label of a caliber.
pub open spec fn caliber_label(c: Caliber) -> &'static str {
    match c {
        Caliber::Cal31 => ".31",
        Caliber::Cal36 => ".36",
        Caliber::Cal44 => ".44",
        Caliber::Cal50 => ".50",
        Caliber::Cal58 => ".58",
        Caliber::Cal577 => ".577",
        Caliber::Cal69 => ".69",
    }
}

/// Stamina pool for special actions.
#[derive(Clone, Copy, Debug, PartialEq, Eq, Structural)]
pub struct Stamina {
    pub current: CoordinateUnit,
    pub max: CoordinateUnit,
}

impl Stamina {
    /// Whether the pool respects `0 <= current <= max`.
    pub open spec fn valid(self) -> bool {
        0 <= self.current <= self.max
    }

    /// Spends `cost` stamina if at least that much is available; returns
    /// whether it did. A failed attempt changes nothing.
    pub fn spend(&mut self, cost: CoordinateUnit) -> (ok: bool)
        requires
            old(self).current - cost <= i32::MAX,
        ensures
            ok == (old(self).current >= cost),
            ok ==> final(self).current == old(self).current - cost,
            !ok ==> final(self).current == old(self).current,
            final(self).max == old(self).max,
            old(self).valid() && cost >= 0 ==> final(self).valid(),
    {
        if self.current >= cost {
            self.current = self.current - cost;
            true
        } else {
            false
        }
    }

    /// Recovers `amount` stamina, clamped to `max`.
    pub fn recover(&mut self, amount: CoordinateUnit)
        requires
            i32::MIN <= old(self).current + amount <= i32::MAX,
        ensures
            final(self).current == (if old(self).current + amount < old(self).max {
                old(self).current + amount
            } else {
                old(self).max as int
            }),
            final(self).max == old(self).max,
            final(self).current <= final(self).max,
            old(self).valid() && amount >= 0 ==> final(self).valid(),
    {
        let sum = self.current + amount;
        self.current = if sum < self.max { sum } else { self.max };
    }
}

/// Visual style for projectile rendering.
#[derive(Clone, Copy, Debug, PartialEq, Eq, Structural)]
pub enum ProjectileVisual {
    /// Bullets and shrapnel: a dot head with a trailing dot tail.
    BulletTrail,
    /// Tomahawks and knives: spinning slashes and dashes.
    SpinningBlade,
    /// Everything else (dynamite, molotov, generic): an asterisk.
    Asterisk,
}

/// A thrown explosive travelling through the air.
#[derive(Clone, Copy, Debug, PartialEq, Eq, Structural)]
pub enum ThrownExplosive {
    /// Dynamite: spawns shrapnel and destroys the environment on detonation.
    Dynamite { damage: i32, radius: i32, grenade_index: usize },
    /// Molotov: sets an area on fire and generates smoke on detonation.
    Molotov { damage: i32, radius: i32, item_index: usize },
}

/// The kind of item and its associated effect.
#[derive(Clone, Debug)]
pub enum ItemKind {
    /// A cap-and-ball revolver. Tracks loaded rounds and caliber.
    Gun {
        loaded: i32,
        capacity: i32,
        caliber: Caliber,
        attack: i32,
        name: String,
        /// Blunt/thrown damage when used as a melee weapon or thrown.
        blunt_damage: i32,
    },
    /// A throwing knife. Can be recovered after landing.
    Knife { attack: i32, blunt_damage: i32 },
    /// A throwing tomahawk. Can be recovered after landing.
    Tomahawk { attack: i32, blunt_damage: i32 },
    /// A grenade (dynamite stick). Deals area damage.
    Grenade { damage: i32, radius: i32, blunt_damage: i32 },
    /// Whiskey bottle. Restores health when consumed.
    Whiskey { heal: i32, blunt_damage: i32 },
    /// A molotov cocktail. Sets a large area on fire.
    Molotov { damage: i32, radius: i32, blunt_damage: i32 },
    /// A bow. Fires arrows.
    Bow { attack: i32, blunt_damage: i32 },
    /// Beer. Restores a small amount of health when consumed.
    Beer { heal: i32, blunt_damage: i32 },
    /// Ale. Restores health when consumed.
    Ale { heal: i32, blunt_damage: i32 },
    /// Stout. Restores a moderate amount of health when consumed.
    Stout { heal: i32, blunt_damage: i32 },
    /// Wine. Restores health when consumed.
    Wine { heal: i32, blunt_damage: i32 },
    /// Rum. Restores a large amount of health when consumed.
    Rum { heal: i32, blunt_damage: i32 },
}

/// The blunt/thrown damage of an item.
pub open spec fn blunt_damage_of(k: ItemKind) -> i32 {
    match k {
        ItemKind::Gun { blunt_damage, .. } => blunt_damage,
        ItemKind::Knife { blunt_damage, .. } => blunt_damage,
        ItemKind::Tomahawk { blunt_damage, .. } => blunt_damage,
        ItemKind::Grenade { blunt_damage, .. } => blunt_damage,
        ItemKind::Whiskey { blunt_damage, .. } => blunt_damage,
        ItemKind::Molotov { blunt_damage, .. } => blunt_damage,
        ItemKind::Bow { blunt_damage, .. } => blunt_damage,
        ItemKind::Beer { blunt_damage, .. } => blunt_damage,
        ItemKind::Ale { blunt_damage, .. } => blunt_damage,
        ItemKind::Stout { blunt_damage, .. } => blunt_damage,
        ItemKind::Wine { blunt_damage, .. } => blunt_damage,
        ItemKind::Rum { blunt_damage, .. } => blunt_damage,
    }
}

/// `b` is the `blunt_damage` field of item `k`, whatever its kind.
pub open spec fn blunt_field_is(k: ItemKind, b: i32) -> bool {
    ||| k matches ItemKind::Gun { blunt_damage: f, .. } && f == b
    ||| k matches ItemKind::Knife { blunt_damage: f, .. } && f == b
    ||| k matches ItemKind::Tomahawk { blunt_damage: f, .. } && f == b
    ||| k matches ItemKind::Grenade { blunt_damage: f, .. } && f == b
    ||| k matches ItemKind::Whiskey { blunt_damage: f, .. } && f == b
    ||| k matches ItemKind::Molotov { blunt_damage: f, .. } && f == b
    ||| k matches ItemKind::Bow { blunt_damage: f, .. } && f == b
    ||| k matches ItemKind::Beer { blunt_damage: f, .. } && f == b
    ||| k matches ItemKind::Ale { blunt_damage: f, .. } && f == b
    ||| k matches ItemKind::Stout { blunt_damage: f, .. } && f == b
    ||| k matches ItemKind::Wine { blunt_damage: f, .. } && f == b
    ||| k matches ItemKind::Rum { blunt_damage: f, .. } && f == b
}

/// An item's blunt damage is its `blunt_damage` field, for every kind of
/// item, guns included.
pub proof fn law_blunt_damage_is_the_field(k: ItemKind)
    ensures
        blunt_field_is(k, blunt_damage_of(k)),
        forall|b: i32| blunt_field_is(k, b) ==> b == blunt_damage_of(k),
{
}

/// The display name of an item kind: a gun's own name, otherwise the
/// kind's label.
pub open spec fn item_name_of(k: ItemKind) -> Seq<char> {
    match k {
        ItemKind::Gun { name, .. } => name@,
        ItemKind::Knife { .. } => "Knife"@,
        ItemKind::Tomahawk { .. } => "Tomahawk"@,
        ItemKind::Grenade { .. } => "Dynamite"@,
        ItemKind::Whiskey { .. } => "Whiskey"@,
        ItemKind::Molotov { .. } => "Molotov"@,
        ItemKind::Bow { .. } => "Bow"@,
        ItemKind::Beer { .. } => "Beer"@,
        ItemKind::Ale { .. } => "Ale"@,
        ItemKind::Stout { .. } => "Stout"@,
        ItemKind::Wine { .. } => "Wine"@,
        ItemKind::Rum { .. } => "Rum"@,
    }
}

impl ItemKind {
    /// Returns the blunt/thrown damage for this item.
    pub fn blunt_damage(&self) -> (r: i32)
        ensures
            r == blunt_damage_of(*self),
            blunt_field_is(*self, r),
    {
        match self {
            ItemKind::Gun { blunt_damage, .. } => *blunt_damage,
            ItemKind::Knife { blunt_damage, .. } => *blunt_damage,
            ItemKind::Tomahawk { blunt_damage, .. } => *blunt_damage,
            ItemKind::Grenade { blunt_damage, .. } => *blunt_damage,
            ItemKind::Whiskey { blunt_damage, .. } => *blunt_damage,
            ItemKind::Molotov { blunt_damage, .. } => *blunt_damage,
            ItemKind::Bow { blunt_damage, .. } => *blunt_damage,
            ItemKind::Beer { blunt_damage, .. } => *blunt_damage,
            ItemKind::Ale { blunt_damage, .. } => *blunt_damage,
            ItemKind::Stout { blunt_damage, .. } => *blunt_damage,
            ItemKind::Wine { blunt_damage, .. } => *blunt_damage,
            ItemKind::Rum { blunt_damage, .. } => *blunt_damage,
        }
    }

    /// Returns a human-readable display name for this item kind.
    pub fn display_name(&self) -> (r: String)
        ensures
            r@ == item_name_of(*self),
    {
        match self {
            ItemKind::Gun { name, .. } => name.clone(),
            ItemKind::Knife { .. } => "Knife".to_owned(),
            ItemKind::Tomahawk { .. } => "Tomahawk".to_owned(),
            ItemKind::Grenade { .. } => "Dynamite".to_owned(),
            ItemKind::Whiskey { .. } => "Whiskey".to_owned(),
            ItemKind::Molotov { .. } => "Molotov".to_owned(),
            ItemKind::Bow { .. } => "Bow".to_owned(),
            ItemKind::Beer { .. } => "Beer".to_owned(),
            ItemKind::Ale { .. } => "Ale".to_owned(),
            ItemKind::Stout { .. } => "Stout".to_owned(),
            ItemKind::Wine { .. } => "Wine".to_owned(),
            ItemKind::Rum { .. } => "Rum".to_owned(),
        }
    }
}

/// Links a thrown knife or tomahawk projectile to the item it carries.
#[derive(Clone, Copy, Debug, PartialEq, Eq, Structural)]
pub struct ThrownItemProjectile {
    /// The item entity being thrown.
    pub item_entity: EntityId,
}

/// Inventory component: the item entities an entity carries.
#[derive(Clone, Debug)]
pub struct Inventory {
    pub items: Vec<EntityId>,
}

impl Inventory {
    /// Removes and returns the item at `index`, or `None` (leaving the
    /// inventory unchanged) if the index is out of bounds.
    pub fn remove_at(&mut self, index: usize) -> (r: Option<EntityId>)
        ensures
            index < old(self).items@.len() ==> r == Some(old(self).items@[index as int])
                && final(self).items@ == old(self).items@.remove(index as int),
            index >= old(self).items@.len() ==> r.is_none()
                && final(self).items@ == old(self).items@,
    {
        if index < self.items.len() {
            Some(self.items.remove(index))
        } else {
            None
        }
    }
}

/// Type and quantity of a collectible supply drop.
#[derive(Clone, Copy, Debug, PartialEq, Eq, Structural)]
pub enum CollectibleKind {
    Caps(i32),
    Bullets31(i32),
    Bullets36(i32),
    Bullets44(i32),
    Bullets50(i32),
    Bullets58(i32),
    Bullets577(i32),
    Bullets69(i32),
    Powder(i32),
}

/// The entity that last dealt damage to this entity.
#[derive(Clone, Copy, Debug, PartialEq, Eq, Structural)]
pub struct LastDamageSource(pub EntityId);

} // verus!
