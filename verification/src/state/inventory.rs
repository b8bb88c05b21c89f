//! The player's stock of resources: one saturating counter per kind.

use vstd::prelude::*;

verus! {

/// The number of kinds of resource.
pub const ITEM_KINDS: usize = 2;

/// A kind of resource.
#[derive(Debug, Clone, Copy, PartialEq, Eq, Structural)]
pub enum ItemType {
    WoodPlank,
    Fish,
}

impl ItemType {
    /// The slot of this kind in an inventory, and its place in a record.
    pub open spec fn index(self) -> int {
        match self {
            ItemType::WoodPlank => 0,
            ItemType::Fish => 1,
        }
    }

    pub fn variant_count() -> (r: usize)
        ensures
            r == ITEM_KINDS,
    {
        ITEM_KINDS
    }

    fn slot(self) -> (r: usize)
        ensures
            r == self.index(),
            r < ITEM_KINDS,
    {
        match self {
            ItemType::WoodPlank => 0,
            ItemType::Fish => 1,
        }
    }
}

/// What the player carries: for each kind a count from 0 to 255.
#[derive(Debug, Clone, Copy, PartialEq, Eq)]
pub struct Inventory {
    /// The counts, one slot per kind.
    pub content: [u8; ITEM_KINDS],
}

impl Default for Inventory {
    /// The empty inventory.
    fn default() -> (r: Self)
        ensures
            forall|item: ItemType| r.count(item) == 0,
    {
        let r = Inventory { content: [0u8;ITEM_KINDS] };
        assert forall|item: ItemType| r.count(item) == 0 by {
            assert(0 <= item.index() < ITEM_KINDS);
        }
        r
    }
}

impl Inventory {
    /// How much of `item` the inventory holds.
    pub open spec fn count(&self, item: ItemType) -> u8 {
        self.content[item.index()]
    }

    /// Whether nothing but the count of `item` differs between two
    /// inventories.
    pub open spec fn same_but(&self, other: Inventory, item: ItemType) -> bool {
        forall|kind: ItemType| kind != item ==> self.count(kind) == other.count(kind)
    }

    pub fn item(&self, item_type: ItemType) -> (r: &u8)
        ensures
            *r == self.count(item_type),
    {
        &self.content[item_type.slot()]
    }

    pub fn item_mut(&mut self, item_type: ItemType) -> (r: &mut u8)
        ensures
            *r == old(self).count(item_type),
            final(self).count(item_type) == *final(r),
            final(self).same_but(*old(self), item_type),
    {
        let slot = item_type.slot();
        &mut self.content[slot]
    }

    /// How much of `item_type` the inventory holds.
    pub fn get(&self, item_type: ItemType) -> (r: u8)
        ensures
            r == self.count(item_type),
    {
        self.content[item_type.slot()]
    }

    /// Adds `n` of `item_type`. A count that would pass 255 stays at 255.
    pub fn add(&mut self, item_type: ItemType, n: u8)
        ensures
            final(self).count(item_type) == (if old(self).count(item_type) + n > 255 {
                255
            } else {
                old(self).count(item_type) + n
            }),
            final(self).same_but(*old(self), item_type),
    {
        let slot = item_type.slot();
        let have: u8 = self.content[slot];
        let sum: u8 = if have > 255 - n {
            255
        } else {
            have + n
        };
        self.content[slot] = sum;
    }

    /// Takes `n` of `item_type` away. A count that would fall below 0 stays
    /// at 0.
    pub fn sub(&mut self, item_type: ItemType, n: u8)
        ensures
            final(self).count(item_type) == (if old(self).count(item_type) < n {
                0
            } else {
                old(self).count(item_type) - n
            }),
            final(self).same_but(*old(self), item_type),
    {
        let slot = item_type.slot();
        let have: u8 = self.content[slot];
        let rest: u8 = if have < n {
            0
        } else {
            have - n
        };
        self.content[slot] = rest;
    }
}

/// Two inventories that hold the same of every kind are the same inventory.
pub proof fn lemma_inventory_extensional(a: Inventory, b: Inventory)
    requires
        forall|item: ItemType| a.count(item) == b.count(item),
    ensures
        a == b,
{
    assert(a.count(ItemType::WoodPlank) == b.count(ItemType::WoodPlank));
    assert(a.count(ItemType::Fish) == b.count(ItemType::Fish));
    assert(a.content =~= b.content);
}

} // verus!
