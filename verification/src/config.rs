//! The per-floor difficulty curves: how many monsters and items a room may
//! hold on each floor, and the weighted kind tables the spawner samples
//! from. Weights are in thousandths; they need not sum to one thousand, the
//! sampler falls through to the last entry on any residual.

use vstd::prelude::*;
use crate::tile::{ItemType, MonsterType};

verus! {

/// One floor's per-room spawn budgets.
#[derive(Debug, PartialEq, Eq, Structural, Clone, Copy)]
pub struct FloorParameterItem {
    pub max_monsters_per_room: usize,
    pub max_items_per_room: usize,
}

/// The spawn budgets of every floor, in descent order.
#[derive(Debug)]
pub struct FloorParameters {
    pub items: Vec<FloorParameterItem>,
}

impl FloorParameters {
    /// The configured difficulty curve: eight floors of rising budgets.
    pub fn new() -> (r: FloorParameters)
        ensures
            r.items@ == seq![
                (FloorParameterItem { max_monsters_per_room: 2, max_items_per_room: 10 }),
                (FloorParameterItem { max_monsters_per_room: 2, max_items_per_room: 1 }),
                (FloorParameterItem { max_monsters_per_room: 2, max_items_per_room: 1 }),
                (FloorParameterItem { max_monsters_per_room: 3, max_items_per_room: 2 }),
                (FloorParameterItem { max_monsters_per_room: 3, max_items_per_room: 2 }),
                (FloorParameterItem { max_monsters_per_room: 5, max_items_per_room: 2 }),
                (FloorParameterItem { max_monsters_per_room: 5, max_items_per_room: 2 }),
                (FloorParameterItem { max_monsters_per_room: 5, max_items_per_room: 2 }),
            ],
    {
        let mut items: Vec<FloorParameterItem> = Vec::new();
        items.push(FloorParameterItem { max_monsters_per_room: 2, max_items_per_room: 10 });
        items.push(FloorParameterItem { max_monsters_per_room: 2, max_items_per_room: 1 });
        items.push(FloorParameterItem { max_monsters_per_room: 2, max_items_per_room: 1 });
        items.push(FloorParameterItem { max_monsters_per_room: 3, max_items_per_room: 2 });
        items.push(FloorParameterItem { max_monsters_per_room: 3, max_items_per_room: 2 });
        items.push(FloorParameterItem { max_monsters_per_room: 5, max_items_per_room: 2 });
        items.push(FloorParameterItem { max_monsters_per_room: 5, max_items_per_room: 2 });
        items.push(FloorParameterItem { max_monsters_per_room: 5, max_items_per_room: 2 });
        proof {
            assert(items@ =~= seq![
                (FloorParameterItem { max_monsters_per_room: 2, max_items_per_room: 10 }),
                (FloorParameterItem { max_monsters_per_room: 2, max_items_per_room: 1 }),
                (FloorParameterItem { max_monsters_per_room: 2, max_items_per_room: 1 }),
                (FloorParameterItem { max_monsters_per_room: 3, max_items_per_room: 2 }),
                (FloorParameterItem { max_monsters_per_room: 3, max_items_per_room: 2 }),
                (FloorParameterItem { max_monsters_per_room: 5, max_items_per_room: 2 }),
                (FloorParameterItem { max_monsters_per_room: 5, max_items_per_room: 2 }),
                (FloorParameterItem { max_monsters_per_room: 5, max_items_per_room: 2 }),
            ]);
        }
        FloorParameters { items }
    }
}

/// One floor's weighted kind tables, weights in thousandths.
#[derive(Debug, Clone)]
pub struct ItemAndMonsterParameterItem {
    pub items: Vec<(ItemType, u32)>,
    pub monsters: Vec<(MonsterType, u32)>,
}

/// The weighted kind tables of every floor, in descent order.
pub struct ItemAndMonsterParameters {
    pub parameters: Vec<ItemAndMonsterParameterItem>,
}

impl ItemAndMonsterParameters {
    /// The configured curve, floor by floor: the first floor spawns only
    /// the lightest kinds, the next two split 800/200, the deeper floors
    /// even out at 500/500.
    pub fn new() -> (r: ItemAndMonsterParameters)
        ensures
            r.parameters@.len() == 8,
            forall|i: int|
                0 <= i < 8 ==> (#[trigger] r.parameters@[i]).items@.len() >= 1
                    && r.parameters@[i].monsters@.len() >= 1,
            r.parameters@[0].items@ == seq![(ItemType::Lightning, 1000u32)],
            r.parameters@[0].monsters@ == seq![(MonsterType::Orc, 1000u32)],
            forall|i: int|
                1 <= i < 3 ==> (#[trigger] r.parameters@[i]).items@ == seq![
                    (ItemType::HealPotion, 800u32),
                    (ItemType::Lightning, 200u32),
                ] && r.parameters@[i].monsters@ == seq![
                    (MonsterType::Orc, 800u32),
                    (MonsterType::Troll, 200u32),
                ],
            forall|i: int|
                3 <= i < 8 ==> (#[trigger] r.parameters@[i]).items@ == seq![
                    (ItemType::HealPotion, 500u32),
                    (ItemType::Lightning, 500u32),
                ] && r.parameters@[i].monsters@ == seq![
                    (MonsterType::Orc, 500u32),
                    (MonsterType::Troll, 500u32),
                ],
    {
        let mut parameters: Vec<ItemAndMonsterParameterItem> = Vec::new();

        let mut items0: Vec<(ItemType, u32)> = Vec::new();
        items0.push((ItemType::Lightning, 1000));
        let mut monsters0: Vec<(MonsterType, u32)> = Vec::new();
        monsters0.push((MonsterType::Orc, 1000));
        proof {
            assert(items0@ =~= seq![(ItemType::Lightning, 1000u32)]);
            assert(monsters0@ =~= seq![(MonsterType::Orc, 1000u32)]);
        }
        parameters.push(ItemAndMonsterParameterItem { items: items0, monsters: monsters0 });

        let mut floor: usize = 1;
        while floor < 8
            invariant
                1 <= floor <= 8,
                parameters@.len() == floor,
                forall|i: int|
                    0 <= i < floor ==> (#[trigger] parameters@[i]).items@.len() >= 1
                        && parameters@[i].monsters@.len() >= 1,
                parameters@[0].items@ == seq![(ItemType::Lightning, 1000u32)],
                parameters@[0].monsters@ == seq![(MonsterType::Orc, 1000u32)],
                forall|i: int|
                    1 <= i < floor && i < 3 ==> (#[trigger] parameters@[i]).items@ == seq![
                        (ItemType::HealPotion, 800u32),
                        (ItemType::Lightning, 200u32),
                    ] && parameters@[i].monsters@ == seq![
                        (MonsterType::Orc, 800u32),
                        (MonsterType::Troll, 200u32),
                    ],
                forall|i: int|
                    3 <= i < floor ==> (#[trigger] parameters@[i]).items@ == seq![
                        (ItemType::HealPotion, 500u32),
                        (ItemType::Lightning, 500u32),
                    ] && parameters@[i].monsters@ == seq![
                        (MonsterType::Orc, 500u32),
                        (MonsterType::Troll, 500u32),
                    ],
            decreases 8 - floor,
        {
            // floors one and two keep the gentle split; the deeper floors
            // even it out
            let heavy: u32 = if floor < 3 {
                200
            } else {
                500
            };
            let light = 1000 - heavy;
            let mut items: Vec<(ItemType, u32)> = Vec::new();
            items.push((ItemType::HealPotion, light));
            items.push((ItemType::Lightning, heavy));
            let mut monsters: Vec<(MonsterType, u32)> = Vec::new();
            monsters.push((MonsterType::Orc, light));
            monsters.push((MonsterType::Troll, heavy));
            proof {
                assert(items@ =~= seq![(ItemType::HealPotion, light), (ItemType::Lightning, heavy)]);
                assert(monsters@ =~= seq![(MonsterType::Orc, light), (MonsterType::Troll, heavy)]);
            }
            parameters.push(ItemAndMonsterParameterItem { items, monsters });
            floor += 1;
        }
        ItemAndMonsterParameters { parameters }
    }
}

} // verus!
