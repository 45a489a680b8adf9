use rust_inventory::inventory::Inventory;
use rust_inventory::item::{Item, ItemStack};
use rust_inventory::log_entry::format_entry;
use rust_inventory::parsed_line::ParsedLine;
use rust_inventory::pipeline::process_inventory_requests;

fn catalog() -> Vec<Item> {
    vec![Item::new(1, "Torch".to_string()), Item::new(2, "Rope".to_string())]
}

fn marker(max_size: u64) -> ParsedLine {
    ParsedLine::InventoryLine { max_size }
}

fn request(id: u64, quantity: u64) -> ParsedLine {
    ParsedLine::ItemStackLine { id, quantity }
}

#[test]
fn two_inventories_scenario() {
    let lines = vec![marker(5), request(1, 3), request(2, 3), marker(10), request(1, 3)];
    let out = process_inventory_requests(lines, &catalog());
    assert_eq!(out.len(), 2);

    let (log, inv) = &out[0];
    assert_eq!(log, &vec!["Stored    ( 3) Torch".to_string(), "Discarded ( 3) Rope".to_string()]);
    assert_eq!(inv.max_size(), 5);
    assert_eq!(inv.occupied(), 3);
    assert_eq!(inv.len(), 1);
    assert_eq!(inv.get_stack(0).get_item().get_id(), 1);

    let (log, inv) = &out[1];
    assert_eq!(log, &vec!["Stored    ( 3) Torch".to_string()]);
    assert_eq!(inv.max_size(), 10);
    assert_eq!(inv.occupied(), 3);
}

#[test]
fn no_markers_gives_no_output() {
    let lines = vec![request(1, 3), request(2, 1), ParsedLine::Other];
    let out = process_inventory_requests(lines, &catalog());
    assert!(out.is_empty());
    assert!(process_inventory_requests(Vec::new(), &catalog()).is_empty());
}

#[test]
fn unknown_identifier_leaves_no_trace() {
    let lines = vec![marker(10), request(99, 4)];
    let out = process_inventory_requests(lines, &catalog());
    assert_eq!(out.len(), 1);
    assert!(out[0].0.is_empty());
    assert_eq!(out[0].1.occupied(), 0);
    assert_eq!(out[0].1.len(), 0);
}

#[test]
fn one_output_per_marker() {
    let lines = vec![
        request(1, 1),
        ParsedLine::Other,
        marker(3),
        marker(0),
        request(2, 1),
        marker(7),
    ];
    let out = process_inventory_requests(lines, &catalog());
    assert_eq!(out.len(), 3);
    assert_eq!(out[0].1.max_size(), 3);
    assert_eq!(out[1].1.max_size(), 0);
    assert_eq!(out[2].1.max_size(), 7);
    // the preamble request belongs to no inventory
    assert!(out[0].0.is_empty());
    assert_eq!(out[1].0, vec!["Discarded ( 1) Rope".to_string()]);
    assert!(out[2].0.is_empty());
}

#[test]
fn stored_total_stays_within_capacity() {
    let lines = vec![marker(10), request(1, 4), request(2, 5), request(1, 2), request(2, 1)];
    let out = process_inventory_requests(lines, &catalog());
    let inv = &out[0].1;
    let mut total: u64 = 0;
    for i in 0..inv.len() {
        total += inv.get_stack(i).size();
    }
    assert_eq!(total, inv.occupied());
    assert_eq!(inv.occupied(), 10);
    assert!(inv.occupied() <= inv.max_size());
    assert_eq!(
        out[0].0,
        vec![
            "Stored    ( 4) Torch".to_string(),
            "Stored    ( 5) Rope".to_string(),
            "Discarded ( 2) Torch".to_string(),
            "Stored    ( 1) Rope".to_string(),
        ]
    );
}

#[test]
fn discarded_stack_leaves_inventory_unchanged() {
    let mut inv = Inventory::new(5);
    assert!(inv.add_items(ItemStack::new(Item::new(1, "Torch".to_string()), 3)));
    assert_eq!(inv.occupied(), 3);
    assert!(!inv.add_items(ItemStack::new(Item::new(2, "Rope".to_string()), 3)));
    assert_eq!(inv.occupied(), 3);
    assert_eq!(inv.len(), 1);
    assert!(inv.add_items(ItemStack::new(Item::new(2, "Rope".to_string()), 2)));
    assert_eq!(inv.occupied(), 5);
    assert_eq!(inv.len(), 2);
}

#[test]
fn oversized_stack_is_rejected_on_empty_inventory() {
    let mut inv = Inventory::new(4);
    assert!(!inv.add_items(ItemStack::new(Item::new(1, "Torch".to_string()), 5)));
    assert_eq!(inv.occupied(), 0);
    assert_eq!(inv.len(), 0);
}

#[test]
fn zero_capacity_takes_only_empty_stacks() {
    let mut inv = Inventory::new(0);
    assert!(!inv.add_items(ItemStack::new(Item::new(1, "Torch".to_string()), 1)));
    assert!(inv.add_items(ItemStack::new(Item::new(1, "Torch".to_string()), 0)));
    assert_eq!(inv.occupied(), 0);
    assert_eq!(inv.len(), 1);
}

#[test]
fn full_u64_capacity_does_not_overflow() {
    let mut inv = Inventory::new(u64::MAX);
    assert!(inv.add_items(ItemStack::new(Item::new(1, "Torch".to_string()), u64::MAX - 1)));
    assert!(!inv.add_items(ItemStack::new(Item::new(1, "Torch".to_string()), 2)));
    assert!(inv.add_items(ItemStack::new(Item::new(1, "Torch".to_string()), 1)));
    assert_eq!(inv.occupied(), u64::MAX);
}

#[test]
fn log_counts_only_resolvable_requests() {
    let lines = vec![
        marker(100),
        request(1, 1),
        ParsedLine::Other,
        request(42, 1),
        request(2, 1),
        request(7, 1),
    ];
    let out = process_inventory_requests(lines, &catalog());
    assert_eq!(out[0].0.len(), 2);
    assert_eq!(out[0].1.len(), 2);
}

#[test]
fn log_follows_request_order() {
    let lines = vec![marker(100), request(2, 1), request(1, 2), request(2, 3)];
    let out = process_inventory_requests(lines, &catalog());
    assert_eq!(
        out[0].0,
        vec![
            "Stored    ( 1) Rope".to_string(),
            "Stored    ( 2) Torch".to_string(),
            "Stored    ( 3) Rope".to_string(),
        ]
    );
    assert_eq!(out[0].1.get_stack(0).get_item().get_name(), "Rope");
    assert_eq!(out[0].1.get_stack(1).get_item().get_name(), "Torch");
}

#[test]
fn order_decides_what_fits() {
    let a = process_inventory_requests(vec![marker(5), request(1, 2), request(2, 4)], &catalog());
    let b = process_inventory_requests(vec![marker(5), request(2, 4), request(1, 2)], &catalog());
    assert_eq!(a[0].1.occupied(), 2);
    assert_eq!(b[0].1.occupied(), 4);
}

#[test]
fn same_input_gives_same_output() {
    let lines = vec![marker(6), request(1, 4), request(2, 3), marker(2), request(2, 2)];
    let a = process_inventory_requests(lines.clone(), &catalog());
    let b = process_inventory_requests(lines, &catalog());
    assert_eq!(a.len(), b.len());
    for i in 0..a.len() {
        assert_eq!(a[i].0, b[i].0);
        assert_eq!(a[i].1.occupied(), b[i].1.occupied());
        assert_eq!(a[i].1.max_size(), b[i].1.max_size());
        assert_eq!(a[i].1.len(), b[i].1.len());
    }
}

#[test]
fn first_catalog_match_wins() {
    let items = vec![
        Item::new(3, "Lantern".to_string()),
        Item::new(3, "Candle".to_string()),
    ];
    let out = process_inventory_requests(vec![marker(9), request(3, 1)], &items);
    assert_eq!(out[0].0, vec!["Stored    ( 1) Lantern".to_string()]);
}

#[test]
fn entry_formatting() {
    assert_eq!(format_entry(true, 3, &"Torch".to_string()), "Stored    ( 3) Torch");
    assert_eq!(format_entry(false, 0, &"Rope".to_string()), "Discarded ( 0) Rope");
    assert_eq!(format_entry(true, 12, &"Rope".to_string()), "Stored    (12) Rope");
    assert_eq!(format_entry(false, 305, &"Axe".to_string()), "Discarded (305) Axe");
    assert_eq!(
        format_entry(true, u64::MAX, &"X".to_string()),
        format!("Stored    ({}) X", u64::MAX)
    );
}

#[test]
fn item_accessors() {
    let item = Item::new(4, "Shovel".to_string());
    assert_eq!(item.get_id(), 4);
    assert_eq!(item.get_name(), "Shovel");
    let copy = item.duplicate();
    assert_eq!(copy.get_id(), 4);
    assert_eq!(copy.get_name(), "Shovel");
    let stack = ItemStack::new(item, 7);
    assert_eq!(stack.size(), 7);
    assert_eq!(stack.get_quantity(), 7);
    assert_eq!(stack.duplicate().get_item().get_name(), "Shovel");
}
