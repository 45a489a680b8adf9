use vstd::prelude::*;
use crate::item::{ItemStack, StackView, stack_size};

verus! {

/// What an `Inventory` stands for: its declared capacity, the room taken so far,
/// and the stacks it holds, in the order they were stored.
pub struct InventoryView {
    pub max_size: nat,
    pub occupied: nat,
    pub stored: Seq<StackView>,
}

/// The total room taken by a sequence of stacks.
pub open spec fn total_size(stacks: Seq<StackView>) -> nat
    decreases stacks.len(),
{
    if stacks.len() == 0 {
        0
    } else {
        total_size(stacks.drop_last()) + stack_size(stacks.last())
    }
}

/// The room taken is the total of the stored stacks, and never more than the capacity.
pub open spec fn inventory_ok(v: InventoryView) -> bool {
    &&& v.occupied == total_size(v.stored)
    &&& v.occupied <= v.max_size
}

/// A fresh inventory of the given capacity.
pub open spec fn empty_inventory(max_size: nat) -> InventoryView {
    InventoryView { max_size, occupied: 0, stored: Seq::empty() }
}

/// Whether `s` fits whole into `v`.
pub open spec fn fits(v: InventoryView, s: StackView) -> bool {
    v.occupied + stack_size(s) <= v.max_size
}

/// The all-or-nothing decision on one stack: stored whole when it fits,
/// otherwise discarded and the inventory left as it was.
pub open spec fn store_step(v: InventoryView, s: StackView) -> (bool, InventoryView) {
    if fits(v, s) {
        (true, InventoryView { max_size: v.max_size, occupied: v.occupied + stack_size(s), stored: v.stored.push(s) })
    } else {
        (false, v)
    }
}

/// A container of fixed capacity that stacks are stored into whole or not at all.
pub struct Inventory {
    max_size: u64,
    occupied: u64,
    slots: Vec<ItemStack>,
}

impl View for Inventory {
    type V = InventoryView;

    closed spec fn view(&self) -> InventoryView {
        InventoryView {
            max_size: self.max_size as nat,
            occupied: self.occupied as nat,
            stored: self.slots@.map_values(|s: ItemStack| s@),
        }
    }
}

impl Inventory {
    /// The inventory's internal invariant.
    pub open spec fn wf(&self) -> bool {
        inventory_ok(self@)
    }

    pub fn new(max_size: u64) -> (r: Inventory)
        ensures
            r.wf(),
            r@ == empty_inventory(max_size as nat),
    {
        let r = Inventory { max_size, occupied: 0, slots: Vec::new() };
        assert(r@.stored =~= Seq::<StackView>::empty());
        r
    }

    pub fn max_size(&self) -> (r: u64)
        ensures
            r as nat == self@.max_size,
    {
        self.max_size
    }

    pub fn occupied(&self) -> (r: u64)
        ensures
            r as nat == self@.occupied,
    {
        self.occupied
    }

    pub fn len(&self) -> (r: usize)
        ensures
            r == self@.stored.len(),
    {
        self.slots.len()
    }

    pub fn get_stack(&self, i: usize) -> (r: &ItemStack)
        requires
            i < self@.stored.len(),
        ensures
            r@ == self@.stored[i as int],
    {
        &self.slots[i]
    }

    /// Stores `stack` whole if it fits in the room left, and reports whether it did.
    /// A stack that does not fit leaves the inventory unchanged.
    pub fn add_items(&mut self, stack: ItemStack) -> (r: bool)
        requires
            old(self).wf(),
        ensures
            final(self).wf(),
            (r, final(self)@) == store_step(old(self)@, stack@),
            r == (old(self)@.occupied + stack_size(stack@) <= old(self)@.max_size),
            r ==> final(self)@.occupied == old(self)@.occupied + stack_size(stack@),
            !r ==> final(self)@ == old(self)@,
            final(self)@.max_size == old(self)@.max_size,
    {
        let incoming = stack.size();
        if incoming <= self.max_size - self.occupied {
            let ghost before = self.slots@;
            self.occupied = self.occupied + incoming;
            self.slots.push(stack);
            proof {
                let stored = self.slots@.map_values(|s: ItemStack| s@);
                let prev = before.map_values(|s: ItemStack| s@);
                assert(stored.drop_last() =~= prev);
            }
            assert(self@.stored =~= old(self)@.stored.push(stack@));
            true
        } else {
            false
        }
    }
}

} // verus!
