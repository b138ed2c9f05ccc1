use vstd::prelude::*;

verus! {

/// The kinds of hand-held tools.
#[derive(Debug, Clone, Copy, PartialEq, Eq, Hash, Structural)]
pub enum ItemKind {
    Sword,
    Pickaxe,
    Axe,
    Hoe,
    Shovel,
}

/// Damage dealt by a tool of this kind.
pub open spec fn kind_damage(kind: ItemKind) -> u8 {
    match kind {
        ItemKind::Sword => 4,
        ItemKind::Pickaxe => 3,
        ItemKind::Axe => 5,
        ItemKind::Hoe => 1,
        ItemKind::Shovel => 2,
    }
}

/// Base mining speed of a tool of this kind, before the block factor.
pub open spec fn kind_base_speed(kind: ItemKind) -> int {
    match kind {
        ItemKind::Sword => 1,
        ItemKind::Pickaxe => 10,
        ItemKind::Axe => 8,
        ItemKind::Hoe => 2,
        ItemKind::Shovel => 6,
    }
}

/// Factor by which a block speeds up mining: grass and dirt double it.
pub open spec fn block_speed_factor(block_id: u8) -> int {
    if block_id == 1 || block_id == 2 {
        2
    } else {
        1
    }
}

impl ItemKind {
    /// Damage dealt by a tool of this kind.
    pub fn damage(&self) -> (d: u8)
        ensures
            d == kind_damage(*self),
    {
        match self {
            ItemKind::Sword => 4,
            ItemKind::Pickaxe => 3,
            ItemKind::Axe => 5,
            ItemKind::Hoe => 1,
            ItemKind::Shovel => 2,
        }
    }

    /// Mining speed of this tool on block `block_id`: its base speed times the block factor.
    pub fn mining_speed(&self, block_id: u8) -> (s: u8)
        ensures
            s == kind_base_speed(*self) * block_speed_factor(block_id),
    {
        let base: u8 = match self {
            ItemKind::Sword => 1,
            ItemKind::Pickaxe => 10,
            ItemKind::Axe => 8,
            ItemKind::Hoe => 2,
            ItemKind::Shovel => 6,
        };
        let multiplier: u8 = match block_id {
            1 | 2 => 2,
            3 => 1,
            _ => 1,
        };
        base * multiplier
    }
}

/// A tool together with its remaining durability.
#[derive(Debug, Clone, Copy, PartialEq, Eq, Structural)]
pub struct Item {
    pub kind: ItemKind,
    pub durability: u16,
}

impl Item {
    /// A fresh tool of `kind`, at full durability (100).
    pub fn new(kind: ItemKind) -> (item: Self)
        ensures
            item == (Item { kind, durability: 100 }),
    {
        Self { kind, durability: 100 }
    }

    /// A tool of `kind` with the given durability.
    pub fn with_durability(kind: ItemKind, durability: u16) -> (item: Self)
        ensures
            item == (Item { kind, durability }),
    {
        Self { kind, durability }
    }
}

} // verus!
