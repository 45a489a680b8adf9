use vstd::prelude::*;

verus! {

/// What an `Item` stands for: its identifier and its display name.
pub struct ItemView {
    pub id: u64,
    pub name: Seq<char>,
}

/// A catalog entry: a small identifier and a display name.
pub struct Item {
    id: u64,
    name: String,
}

impl View for Item {
    type V = ItemView;

    closed spec fn view(&self) -> ItemView {
        ItemView { id: self.id, name: self.name@ }
    }
}

impl Item {
    pub fn new(id: u64, name: String) -> (r: Item)
        ensures
            r@ == (ItemView { id, name: name@ }),
    {
        Item { id, name }
    }

    pub fn get_id(&self) -> (r: u64)
        ensures
            r == self@.id,
    {
        self.id
    }

    pub fn get_name(&self) -> (r: &String)
        ensures
            r@ == self@.name,
    {
        &self.name
    }

    /// A second item with the same identifier and name.
    pub fn duplicate(&self) -> (r: Item)
        ensures
            r@ == self@,
    {
        Item { id: self.id, name: self.name.clone() }
    }
}

/// What an `ItemStack` stands for: the item and how many of it.
pub struct StackView {
    pub item: ItemView,
    pub quantity: u64,
}

/// The room a stack takes in an inventory: one unit per piece.
pub open spec fn stack_size(s: StackView) -> nat {
    s.quantity as nat
}

/// A request to store `quantity` pieces of one item as a single, indivisible unit.
pub struct ItemStack {
    item: Item,
    quantity: u64,
}

impl View for ItemStack {
    type V = StackView;

    closed spec fn view(&self) -> StackView {
        StackView { item: self.item@, quantity: self.quantity }
    }
}

impl ItemStack {
    pub fn new(item: Item, quantity: u64) -> (r: ItemStack)
        ensures
            r@ == (StackView { item: item@, quantity }),
    {
        ItemStack { item, quantity }
    }

    pub fn get_item(&self) -> (r: &Item)
        ensures
            r@ == self@.item,
    {
        &self.item
    }

    pub fn get_quantity(&self) -> (r: u64)
        ensures
            r == self@.quantity,
    {
        self.quantity
    }

    /// A second stack of the same item and quantity.
    pub fn duplicate(&self) -> (r: ItemStack)
        ensures
            r@ == self@,
    {
        ItemStack { item: self.item.duplicate(), quantity: self.quantity }
    }

    pub fn size(&self) -> (r: u64)
        ensures
            r as nat == stack_size(self@),
    {
        self.quantity
    }
}

} // verus!
