//! The player's special abilities that work on the inventory: the dual
//! wield, the fan shot and the random throw. Each decides, from where the
//! cursor points and what is carried, whether the ability fires and with
//! which items; carrying it out is the caller's.
use vstd::prelude::*;

use crate::components::{EntityId, ItemKind};
use crate::decor::quot;
use crate::grid_vec::GridVec;
use crate::resources::{index_from_roll, roll_spec, DynamicRng};

verus! {

/// An inventory item: its entity and, when known, its kind.
pub type CarriedItem = (EntityId, Option<ItemKind>);

/// The loaded guns among the items, in order, with the rounds in each.
pub open spec fn loaded_guns_spec(items: Seq<CarriedItem>) -> Seq<(EntityId, i32)>
    decreases items.len(),
{
    if items.len() == 0 {
        seq![]
    } else {
        let prev = loaded_guns_spec(items.drop_last());
        match items.last().1 {
            Some(ItemKind::Gun { loaded, .. }) => if loaded > 0 {
                prev.push((items.last().0, loaded))
            } else {
                prev
            },
            _ => prev,
        }
    }
}

/// The loaded guns among the items (see `loaded_guns_spec`).
pub fn loaded_guns(items: &[CarriedItem]) -> (r: Vec<(EntityId, i32)>)
    ensures
        r@ == loaded_guns_spec(items@),
{
    let mut r: Vec<(EntityId, i32)> = Vec::new();
    let mut i: usize = 0;
    while i < items.len()
        invariant
            i <= items@.len(),
            r@ == loaded_guns_spec(items@.take(i as int)),
        decreases items@.len() - i,
    {
        proof {
            assert(items@.take(i + 1).drop_last() =~= items@.take(i as int));
            assert(items@.take(i + 1).last() == items@[i as int]);
        }
        match &items[i].1 {
            Some(ItemKind::Gun { loaded, .. }) => {
                if *loaded > 0 {
                    r.push((items[i].0, *loaded));
                }
            },
            _ => {},
        }
        i = i + 1;
    }
    proof {
        assert(items@.take(items@.len() as int) =~= items@);
    }
    r
}

/// What the dual wield does.
#[derive(Clone, Copy, Debug, PartialEq, Eq, Structural)]
pub enum DualWield {
    /// The cursor is on the player.
    CursorOnSelf,
    /// The player carries nothing.
    NoInventory,
    /// Fewer than two loaded revolvers.
    TooFewGuns,
    /// Fire these two revolvers at the cursor.
    Fire(EntityId, EntityId),
}

/// The two revolvers the dual wield fires, as indices among `n` loaded
/// guns: the first drawn by the roll keyed `0xDA01` over all `n`; the
/// second by the roll keyed `0xDA02` over the other `n - 1`, skipping
/// the first.
pub open spec fn dual_picks(tick: u64, seed: u64, n: int) -> (int, int) {
    let i1 = index_from_roll(roll_spec(seed, tick, 0xDA01), n);
    let j = index_from_roll(roll_spec(seed, tick, 0xDA02), n - 1);
    let i2 = if j >= i1 { j + 1 } else { j };
    (i1, if i2 < n - 1 { i2 } else { n - 1 })
}

/// What the dual wield does, with the cursor `delta` from the player.
pub open spec fn dual_wield_spec(delta: GridVec, items: Option<Seq<CarriedItem>>, tick: u64, seed: u64) -> DualWield {
    if delta.x == 0 && delta.y == 0 {
        DualWield::CursorOnSelf
    } else {
        match items {
            None => DualWield::NoInventory,
            Some(its) => {
                let guns = loaded_guns_spec(its);
                if guns.len() < 2 {
                    DualWield::TooFewGuns
                } else {
                    let (i1, i2) = dual_picks(tick, seed, guns.len() as int);
                    DualWield::Fire(guns[i1].0, guns[i2].0)
                }
            },
        }
    }
}

/// Decides the dual wield (see `dual_wield_spec`).
pub fn dual_wield(delta: GridVec, items: Option<&[CarriedItem]>, rng: &DynamicRng, seed: u64) -> (r: DualWield)
    ensures
        r == dual_wield_spec(delta, match items {
            Some(s) => Some(s@),
            None => None,
        }, rng.tick, seed),
{
    if delta.x == 0 && delta.y == 0 {
        return DualWield::CursorOnSelf;
    }
    let its = match items {
        Some(s) => s,
        None => {
            return DualWield::NoInventory;
        },
    };
    let guns = loaded_guns(its);
    let n = guns.len();
    if n < 2 {
        return DualWield::TooFewGuns;
    }
    let i1 = rng.random_index(seed, 0xDA01, n);
    let mut i2 = rng.random_index(seed, 0xDA02, n - 1);
    if i2 >= i1 {
        i2 = i2 + 1;
    }
    if i2 > n - 1 {
        i2 = n - 1;
    }
    DualWield::Fire(guns[i1].0, guns[i2].0)
}

/// What the fan shot does.
#[derive(Clone, Copy, Debug, PartialEq, Eq, Structural)]
pub enum FanShot {
    /// The cursor is on the player.
    CursorOnSelf,
    /// The player carries nothing.
    NoInventory,
    /// No loaded revolver.
    NoLoadedGun,
    /// Fire every round of this revolver at the cursor.
    Fire { gun: EntityId, rounds: i32 },
}

/// What the fan shot does: every round of one loaded revolver, drawn by
/// the roll keyed `0xFA00`.
pub open spec fn fan_shot_spec(delta: GridVec, items: Option<Seq<CarriedItem>>, tick: u64, seed: u64) -> FanShot {
    if delta.x == 0 && delta.y == 0 {
        FanShot::CursorOnSelf
    } else {
        match items {
            None => FanShot::NoInventory,
            Some(its) => {
                let guns = loaded_guns_spec(its);
                if guns.len() == 0 {
                    FanShot::NoLoadedGun
                } else {
                    let g = guns[index_from_roll(roll_spec(seed, tick, 0xFA00), guns.len() as int)];
                    FanShot::Fire { gun: g.0, rounds: g.1 }
                }
            },
        }
    }
}

/// Decides the fan shot (see `fan_shot_spec`).
pub fn fan_shot(delta: GridVec, items: Option<&[CarriedItem]>, rng: &DynamicRng, seed: u64) -> (r: FanShot)
    ensures
        r == fan_shot_spec(delta, match items {
            Some(s) => Some(s@),
            None => None,
        }, rng.tick, seed),
{
    if delta.x == 0 && delta.y == 0 {
        return FanShot::CursorOnSelf;
    }
    let its = match items {
        Some(s) => s,
        None => {
            return FanShot::NoInventory;
        },
    };
    let guns = loaded_guns(its);
    if guns.len() == 0 {
        return FanShot::NoLoadedGun;
    }
    let i = rng.random_index(seed, 0xFA00, guns.len());
    let (gun, rounds) = guns[i];
    FanShot::Fire { gun, rounds }
}

/// What the random throw does.
#[derive(Clone, Copy, Debug, PartialEq, Eq, Structural)]
pub enum ThrowRandom {
    /// The cursor is on the player.
    CursorOnSelf,
    /// The player carries nothing.
    NoInventory,
    /// The inventory is empty.
    EmptyInventory,
    /// Throw the item at this inventory index, dealing this damage.
    Throw { index: usize, item: EntityId, damage: i32 },
}

/// The damage of a thrown item: a knife's or tomahawk's attack, half a
/// gun's attack (rounded toward zero), and 2 for anything else.
pub open spec fn throw_damage_spec(kind: Option<ItemKind>) -> int {
    match kind {
        Some(ItemKind::Knife { attack, .. }) => attack as int,
        Some(ItemKind::Tomahawk { attack, .. }) => attack as int,
        Some(ItemKind::Gun { attack, .. }) => quot(attack as int, 2),
        _ => 2,
    }
}

/// The damage of a thrown item (see `throw_damage_spec`).
pub fn throw_damage(kind: &Option<ItemKind>) -> (r: i32)
    ensures
        r == throw_damage_spec(*kind),
{
    match kind {
        Some(ItemKind::Knife { attack, .. }) => *attack,
        Some(ItemKind::Tomahawk { attack, .. }) => *attack,
        Some(ItemKind::Gun { attack, .. }) => {
            if *attack >= 0 {
                *attack / 2
            } else if *attack == i32::MIN {
                -0x4000_0000
            } else {
                -((-*attack) / 2)
            }
        },
        _ => 2,
    }
}

/// What the random throw does: the item drawn by the roll keyed `0x7000`
/// over the whole inventory.
pub open spec fn throw_random_spec(delta: GridVec, items: Option<Seq<CarriedItem>>, tick: u64, seed: u64) -> ThrowRandom {
    if delta.x == 0 && delta.y == 0 {
        ThrowRandom::CursorOnSelf
    } else {
        match items {
            None => ThrowRandom::NoInventory,
            Some(its) => if its.len() == 0 {
                ThrowRandom::EmptyInventory
            } else {
                let i = index_from_roll(roll_spec(seed, tick, 0x7000), its.len() as int);
                ThrowRandom::Throw { index: i as usize, item: its[i].0, damage: throw_damage_spec(its[i].1) as i32 }
            },
        }
    }
}

/// Decides the random throw (see `throw_random_spec`).
pub fn throw_random(delta: GridVec, items: Option<&[CarriedItem]>, rng: &DynamicRng, seed: u64) -> (r: ThrowRandom)
    ensures
        r == throw_random_spec(delta, match items {
            Some(s) => Some(s@),
            None => None,
        }, rng.tick, seed),
{
    if delta.x == 0 && delta.y == 0 {
        return ThrowRandom::CursorOnSelf;
    }
    let its = match items {
        Some(s) => s,
        None => {
            return ThrowRandom::NoInventory;
        },
    };
    if its.len() == 0 {
        return ThrowRandom::EmptyInventory;
    }
    let i = rng.random_index(seed, 0x7000, its.len());
    let damage = throw_damage(&its[i].1);
    ThrowRandom::Throw { index: i, item: its[i].0, damage }
}

} // verus!
