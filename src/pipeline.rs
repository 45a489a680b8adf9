use vstd::prelude::*;
use crate::item::{Item, ItemStack, ItemView, StackView, stack_size};
use crate::inventory::{Inventory, InventoryView, empty_inventory, store_step};
use crate::parsed_line::ParsedLine;
use crate::log_entry::{format_entry, log_line};

verus! {

/// The audit log and final state after deciding on `stacks` one by one, in order,
/// starting from `v`.
pub open spec fn run(v: InventoryView, stacks: Seq<StackView>) -> (Seq<Seq<char>>, InventoryView)
    decreases stacks.len(),
{
    if stacks.len() == 0 {
        (Seq::empty(), v)
    } else {
        let prev = run(v, stacks.drop_last());
        let s = stacks.last();
        let step = store_step(prev.1, s);
        (prev.0.push(log_line(step.0, stack_size(s), s.item.name)), step.1)
    }
}

pub open spec fn stack_views(stacks: Seq<ItemStack>) -> Seq<StackView> {
    stacks.map_values(|s: ItemStack| s@)
}

pub open spec fn string_views(strings: Seq<String>) -> Seq<Seq<char>> {
    strings.map_values(|s: String| s@)
}

/// Decides on each stack in order, storing it into `inv` when it fits whole,
/// and returns one audit line per stack.
fn process_entries(stacks_to_store: Vec<ItemStack>, inv: &mut Inventory) -> (r: Vec<String>)
    requires
        old(inv).wf(),
    ensures
        final(inv).wf(),
        (string_views(r@), final(inv)@) == run(old(inv)@, stack_views(stacks_to_store@)),
{
    let ghost all = stack_views(stacks_to_store@);
    let mut entries: Vec<String> = Vec::new();
    let mut i: usize = 0;
    while i < stacks_to_store.len()
        invariant
            i <= stacks_to_store.len(),
            all == stack_views(stacks_to_store@),
            inv.wf(),
            (string_views(entries@), inv@) == run(old(inv)@, all.take(i as int)),
        decreases stacks_to_store.len() - i,
    {
        let stack = &stacks_to_store[i];
        let stored = inv.add_items(stack.duplicate());
        let line = format_entry(stored, stack.size(), stack.get_item().get_name());
        let ghost before = entries@;
        entries.push(line);
        proof {
            assert(all.take(i + 1).drop_last() =~= all.take(i as int));
            assert(string_views(entries@) =~= string_views(before).push(line@));
        }
        i = i + 1;
    }
    assert(all.take(i as int) =~= all);
    entries
}

pub open spec fn catalog_view(items: Seq<Item>) -> Seq<ItemView> {
    items.map_values(|i: Item| i@)
}

/// The first catalog entry with identifier `id`, if any.
pub open spec fn find_item(catalog: Seq<ItemView>, id: u64) -> Option<ItemView>
    decreases catalog.len(),
{
    if catalog.len() == 0 {
        None
    } else {
        match find_item(catalog.drop_last(), id) {
            Some(found) => Some(found),
            None => if catalog.last().id == id {
                Some(catalog.last())
            } else {
                None
            },
        }
    }
}

/// The stacks that a segment asks for, in order: one per stack request whose
/// identifier the catalog knows; every other record is dropped.
pub open spec fn resolve(catalog: Seq<ItemView>, segment: Seq<ParsedLine>) -> Seq<StackView>
    decreases segment.len(),
{
    if segment.len() == 0 {
        Seq::empty()
    } else {
        let prev = resolve(catalog, segment.drop_last());
        match segment.last() {
            ParsedLine::ItemStackLine { id, quantity } => match find_item(catalog, id) {
                Some(item) => prev.push(StackView { item, quantity }),
                None => prev,
            },
            _ => prev,
        }
    }
}

/// The position of the first item of `known_items` with identifier `id`.
fn find_index(known_items: &[Item], id: u64) -> (r: Option<usize>)
    ensures
        match r {
            Some(j) => j < known_items@.len() && find_item(catalog_view(known_items@), id)
                == Some(known_items@[j as int]@),
            None => find_item(catalog_view(known_items@), id) is None,
        },
{
    let ghost cat = catalog_view(known_items@);
    let mut j: usize = 0;
    while j < known_items.len()
        invariant
            j <= known_items@.len(),
            cat == catalog_view(known_items@),
            find_item(cat.take(j as int), id) is None,
        decreases known_items@.len() - j,
    {
        assert(cat.take(j + 1).drop_last() =~= cat.take(j as int));
        if known_items[j].get_id() == id {
            proof {
                lemma_find_extends(cat, j as int + 1, id);
            }
            return Some(j);
        }
        j = j + 1;
    }
    assert(cat.take(j as int) =~= cat);
    None
}

/// A match found in a prefix of the catalog is the match in the whole catalog.
proof fn lemma_find_extends(catalog: Seq<ItemView>, n: int, id: u64)
    requires
        0 <= n <= catalog.len(),
        find_item(catalog.take(n), id) is Some,
    ensures
        find_item(catalog, id) == find_item(catalog.take(n), id),
    decreases catalog.len() - n,
{
    if n < catalog.len() {
        assert(catalog.take(n + 1).drop_last() =~= catalog.take(n));
        lemma_find_extends(catalog, n + 1, id);
    } else {
        assert(catalog.take(n) =~= catalog);
    }
}

/// Turns the stack requests of one segment into stacks of catalog items, in order,
/// dropping records that are not stack requests and identifiers the catalog lacks.
fn process_stacks(known_items: &[Item], entries: &[ParsedLine]) -> (r: Vec<ItemStack>)
    ensures
        stack_views(r@) == resolve(catalog_view(known_items@), entries@),
{
    let ghost cat = catalog_view(known_items@);
    let mut stacks: Vec<ItemStack> = Vec::new();
    let mut i: usize = 0;
    while i < entries.len()
        invariant
            i <= entries@.len(),
            cat == catalog_view(known_items@),
            stack_views(stacks@) == resolve(cat, entries@.take(i as int)),
        decreases entries@.len() - i,
    {
        assert(entries@.take(i + 1).drop_last() =~= entries@.take(i as int));
        let ghost before = stacks@;
        match entries[i] {
            ParsedLine::ItemStackLine { id, quantity } => {
                match find_index(known_items, id) {
                    Some(j) => {
                        stacks.push(ItemStack::new(known_items[j].duplicate(), quantity));
                        assert(stack_views(stacks@) =~= stack_views(before).push(stacks@.last()@));
                    },
                    None => {},
                }
            },
            _ => {},
        }
        i = i + 1;
    }
    assert(entries@.take(i as int) =~= entries@);
    stacks
}

pub open spec fn is_marker(l: ParsedLine) -> bool {
    l is InventoryLine
}

/// The capacities that the inventory markers declare, in order.
pub open spec fn marker_capacities(lines: Seq<ParsedLine>) -> Seq<u64>
    decreases lines.len(),
{
    if lines.len() == 0 {
        Seq::empty()
    } else {
        let prev = marker_capacities(lines.drop_last());
        match lines.last() {
            ParsedLine::InventoryLine { max_size } => prev.push(max_size),
            _ => prev,
        }
    }
}

/// The runs of records between markers: the run before the first marker, then one
/// run after each marker. Markers belong to no run.
pub open spec fn segments(lines: Seq<ParsedLine>) -> Seq<Seq<ParsedLine>>
    decreases lines.len(),
{
    if lines.len() == 0 {
        seq![Seq::empty()]
    } else {
        let prev = segments(lines.drop_last());
        if is_marker(lines.last()) {
            prev.push(Seq::empty())
        } else {
            prev.update(prev.len() - 1, prev.last().push(lines.last()))
        }
    }
}

pub open spec fn segment_views(segs: Seq<Vec<ParsedLine>>) -> Seq<Seq<ParsedLine>> {
    segs.map_values(|v: Vec<ParsedLine>| v@)
}

/// There is one run more than there are markers.
pub proof fn lemma_segment_count(lines: Seq<ParsedLine>)
    ensures
        segments(lines).len() == marker_capacities(lines).len() + 1,
    decreases lines.len(),
{
    if lines.len() > 0 {
        lemma_segment_count(lines.drop_last());
    }
}

/// Splits the records at every marker, leaving the markers out.
fn process_lines(all_inventory_lines: &Vec<ParsedLine>) -> (r: Vec<Vec<ParsedLine>>)
    ensures
        segment_views(r@) == segments(all_inventory_lines@),
{
    let ghost lines = all_inventory_lines@;
    let mut done: Vec<Vec<ParsedLine>> = Vec::new();
    let mut current: Vec<ParsedLine> = Vec::new();
    let mut i: usize = 0;
    while i < all_inventory_lines.len()
        invariant
            i <= lines.len(),
            lines == all_inventory_lines@,
            segment_views(done@).push(current@) == segments(lines.take(i as int)),
        decreases lines.len() - i,
    {
        assert(lines.take(i + 1).drop_last() =~= lines.take(i as int));
        let line = all_inventory_lines[i];
        let ghost done_before = done@;
        let ghost current_before = current@;
        if matches!(line, ParsedLine::InventoryLine { .. }) {
            done.push(current);
            current = Vec::new();
            assert(segment_views(done@) =~= segment_views(done_before).push(current_before));
            assert(segment_views(done@).push(current@) =~= segment_views(done_before).push(
                current_before,
            ).push(Seq::empty()));
        } else {
            current.push(line);
            assert(segment_views(done@).push(current@) =~= segment_views(done_before).push(
                current_before,
            ).update(done_before.len() as int, current_before.push(line)));
        }
        i = i + 1;
    }
    assert(lines.take(i as int) =~= lines);
    let ghost done_before = done@;
    done.push(current);
    assert(segment_views(done@) =~= segment_views(done_before).push(current@));
    done
}

/// One fresh inventory per marker, with the capacity it declares, in marker order.
fn process_inventories(all_inventory_lines: &Vec<ParsedLine>) -> (r: Vec<Inventory>)
    ensures
        r@.len() == marker_capacities(all_inventory_lines@).len(),
        forall|k: int|
            0 <= k < r@.len() ==> r@[k].wf() && r@[k]@ == empty_inventory(
                marker_capacities(all_inventory_lines@)[k] as nat,
            ),
{
    let ghost lines = all_inventory_lines@;
    let mut inventories: Vec<Inventory> = Vec::new();
    let mut i: usize = 0;
    while i < all_inventory_lines.len()
        invariant
            i <= lines.len(),
            lines == all_inventory_lines@,
            inventories@.len() == marker_capacities(lines.take(i as int)).len(),
            forall|k: int|
                0 <= k < inventories@.len() ==> inventories@[k].wf() && inventories@[k]@
                    == empty_inventory(
                    marker_capacities(lines.take(i as int))[k] as nat,
                ),
        decreases lines.len() - i,
    {
        assert(lines.take(i + 1).drop_last() =~= lines.take(i as int));
        match all_inventory_lines[i] {
            ParsedLine::InventoryLine { max_size } => {
                inventories.push(Inventory::new(max_size));
            },
            _ => {},
        }
        i = i + 1;
    }
    assert(lines.take(i as int) =~= lines);
    inventories
}

/// How many (inventory, run) pairs there are once the first run is set aside:
/// the shorter of the two sequences decides.
pub open spec fn paired_len(n_inventories: nat, n_segments: nat) -> nat {
    if n_segments == 0 {
        0
    } else if n_inventories <= n_segments - 1 {
        n_inventories
    } else {
        (n_segments - 1) as nat
    }
}

pub open spec fn output_view(r: Seq<(Vec<String>, Inventory)>) -> Seq<(Seq<Seq<char>>, InventoryView)> {
    r.map_values(|p: (Vec<String>, Inventory)| (string_views(p.0@), p.1@))
}

/// Sets the first run aside, pairs each inventory with the next run in order,
/// and fills it from that run's stack requests, logging each decision.
fn log_inventories(
    known_items: &[Item],
    lines: Vec<Vec<ParsedLine>>,
    inventories: Vec<Inventory>,
) -> (r: Vec<(Vec<String>, Inventory)>)
    requires
        forall|k: int| 0 <= k < inventories@.len() ==> inventories@[k].wf(),
    ensures
        r@.len() == paired_len(inventories@.len(), lines@.len()),
        forall|k: int|
            0 <= k < r@.len() ==> (#[trigger] r@[k]).1.wf() && (string_views(r@[k].0@), r@[k].1@) == run(
                inventories@[k]@,
                resolve(catalog_view(known_items@), lines@[k + 1]@),
            ),
{
    let n: usize = if lines.len() == 0 {
        0
    } else if inventories.len() <= lines.len() - 1 {
        inventories.len()
    } else {
        lines.len() - 1
    };
    let ghost all = inventories@;
    let mut rest = inventories;
    let mut logged: Vec<(Vec<String>, Inventory)> = Vec::new();
    let mut i: usize = 0;
    while i < n
        invariant
            i <= n,
            n == paired_len(all.len(), lines@.len()),
            forall|k: int| 0 <= k < all.len() ==> all[k].wf(),
            rest@ == all.skip(i as int),
            all == inventories@,
            logged@.len() == i,
            forall|k: int|
                0 <= k < i ==> (#[trigger] logged@[k]).1.wf() && (string_views(logged@[k].0@), logged@[k].1@)
                    == run(all[k]@, resolve(catalog_view(known_items@), lines@[k + 1]@)),
        decreases n - i,
    {
        let ghost rest_before = rest@;
        let mut inv = rest.remove(0);
        assert(rest@ =~= all.skip(i + 1));
        assert(inv == all[i as int]) by {
            assert(rest_before[0] == all[i as int]);
        }
        let stacks_to_store = process_stacks(known_items, lines[i + 1].as_slice());
        let entries = process_entries(stacks_to_store, &mut inv);
        let ghost logged_before = logged@;
        logged.push((entries, inv));
        assert(forall|k: int| 0 <= k < i ==> logged@[k] == logged_before[k]);
        i = i + 1;
    }
    logged
}

/// The whole outcome of a run: for each marker in order, the audit log and the
/// final state of its inventory after the stack requests that follow it.
pub open spec fn pipeline(catalog: Seq<ItemView>, lines: Seq<ParsedLine>) -> Seq<
    (Seq<Seq<char>>, InventoryView),
> {
    Seq::new(
        marker_capacities(lines).len(),
        |k: int|
            run(
                empty_inventory(marker_capacities(lines)[k] as nat),
                resolve(catalog, segments(lines)[k + 1]),
            ),
    )
}

/// Fills one inventory per marker from the stack requests that follow it, and
/// returns, in marker order, each inventory's audit log with its final state.
pub fn process_inventory_requests(
    all_inventory_lines: Vec<ParsedLine>,
    known_items: &[Item],
) -> (r: Vec<(Vec<String>, Inventory)>)
    ensures
        r@.len() == marker_capacities(all_inventory_lines@).len(),
        output_view(r@) == pipeline(catalog_view(known_items@), all_inventory_lines@),
        forall|k: int| 0 <= k < r@.len() ==> r@[k].1.wf(),
{
    let lines = process_lines(&all_inventory_lines);
    let inventories = process_inventories(&all_inventory_lines);
    proof {
        lemma_segment_count(all_inventory_lines@);
    }
    let r = log_inventories(known_items, lines, inventories);
    assert(output_view(r@) =~= pipeline(catalog_view(known_items@), all_inventory_lines@));
    r
}

} // verus!
