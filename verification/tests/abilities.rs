use roguelike::abilities::{dual_wield, fan_shot, loaded_guns, throw_damage, throw_random, DualWield, FanShot, ThrowRandom};
use roguelike::components::{Caliber, EntityId, ItemKind};
use roguelike::grid_vec::GridVec;
use roguelike::resources::DynamicRng;

fn gun(loaded: i32, attack: i32) -> Option<ItemKind> {
    Some(ItemKind::Gun { loaded, capacity: 6, caliber: Caliber::Cal36, attack, name: "Navy".to_string(), blunt_damage: 2 })
}

fn kit() -> Vec<(EntityId, Option<ItemKind>)> {
    vec![
        (EntityId(10), gun(0, 8)),
        (EntityId(11), Some(ItemKind::Knife { attack: 5, blunt_damage: 1 })),
        (EntityId(12), gun(3, 9)),
        (EntityId(13), None),
        (EntityId(14), gun(6, 7)),
        (EntityId(15), Some(ItemKind::Whiskey { heal: 10, blunt_damage: 1 })),
        (EntityId(16), gun(1, -5)),
    ]
}

#[test]
fn loaded_guns_in_order() {
    assert_eq!(loaded_guns(&kit()), vec![(EntityId(12), 3), (EntityId(14), 6), (EntityId(16), 1)]);
    assert_eq!(loaded_guns(&[]), vec![]);
}

#[test]
fn dual_wield_fires_two_different_guns() {
    let items = kit();
    let d = GridVec::new(3, 1);
    for tick in 0..200u64 {
        let rng = DynamicRng { tick };
        match dual_wield(d, Some(&items[..]), &rng, 99) {
            DualWield::Fire(a, b) => {
                assert_ne!(a, b);
                let n = 3usize;
                let i1 = rng.random_index(99, 0xDA01, n);
                let mut i2 = rng.random_index(99, 0xDA02, n - 1);
                if i2 >= i1 {
                    i2 += 1;
                }
                let ids = [EntityId(12), EntityId(14), EntityId(16)];
                assert_eq!((a, b), (ids[i1], ids[i2.min(n - 1)]));
            }
            other => panic!("unexpected {other:?}"),
        }
    }
    let rng = DynamicRng { tick: 0 };
    assert_eq!(dual_wield(GridVec::new(0, 0), Some(&items[..]), &rng, 1), DualWield::CursorOnSelf);
    assert_eq!(dual_wield(d, None, &rng, 1), DualWield::NoInventory);
    assert_eq!(dual_wield(d, Some(&items[..3]), &rng, 1), DualWield::TooFewGuns);
}

#[test]
fn fan_shot_empties_one_gun() {
    let items = kit();
    let d = GridVec::new(-2, 4);
    for tick in 0..50u64 {
        let rng = DynamicRng { tick };
        let i = rng.random_index(7, 0xFA00, 3);
        let expect = [(EntityId(12), 3), (EntityId(14), 6), (EntityId(16), 1)][i];
        assert_eq!(fan_shot(d, Some(&items[..]), &rng, 7), FanShot::Fire { gun: expect.0, rounds: expect.1 });
    }
    let rng = DynamicRng { tick: 3 };
    assert_eq!(fan_shot(d, Some(&items[..2]), &rng, 7), FanShot::NoLoadedGun);
    assert_eq!(fan_shot(GridVec::new(0, 0), None, &rng, 7), FanShot::CursorOnSelf);
    assert_eq!(fan_shot(d, None, &rng, 7), FanShot::NoInventory);
}

#[test]
fn thrown_item_damage() {
    assert_eq!(throw_damage(&Some(ItemKind::Knife { attack: 5, blunt_damage: 1 })), 5);
    assert_eq!(throw_damage(&Some(ItemKind::Tomahawk { attack: 7, blunt_damage: 1 })), 7);
    assert_eq!(throw_damage(&gun(2, 9)), 4);
    assert_eq!(throw_damage(&gun(2, -5)), -2);
    assert_eq!(throw_damage(&Some(ItemKind::Bow { attack: 9, blunt_damage: 1 })), 2);
    assert_eq!(throw_damage(&None), 2);
}

#[test]
fn random_throw_picks_any_item() {
    let items = kit();
    let d = GridVec::new(1, 0);
    for tick in 0..50u64 {
        let rng = DynamicRng { tick };
        let i = rng.random_index(5, 0x7000, items.len());
        match throw_random(d, Some(&items[..]), &rng, 5) {
            ThrowRandom::Throw { index, item, damage } => {
                assert_eq!(index, i);
                assert_eq!(item, items[i].0);
                assert_eq!(damage, throw_damage(&items[i].1));
            }
            other => panic!("unexpected {other:?}"),
        }
    }
    let rng = DynamicRng { tick: 0 };
    assert_eq!(throw_random(d, Some(&[][..]), &rng, 5), ThrowRandom::EmptyInventory);
    assert_eq!(throw_random(d, None, &rng, 5), ThrowRandom::NoInventory);
    assert_eq!(throw_random(GridVec::new(0, 0), Some(&items[..]), &rng, 5), ThrowRandom::CursorOnSelf);
}
