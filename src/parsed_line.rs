use vstd::prelude::*;

verus! {

/// One classified input record.
#[derive(Clone, Copy, Debug, PartialEq, Eq, Structural)]
pub enum ParsedLine {
    /// Starts a new inventory with the given capacity.
    InventoryLine { max_size: u64 },
    /// Asks to store `quantity` pieces of the item with identifier `id`.
    ItemStackLine { id: u64, quantity: u64 },
    /// Any other record; it plays no part in allocation.
    Other,
}

} // verus!
