use vstd::prelude::*;
use crate::item::{Item, ItemView, StackView, stack_size};
use crate::inventory::{
    Inventory, InventoryView, empty_inventory, inventory_ok, store_step, total_size,
};
use crate::log_entry::log_line;
use crate::parsed_line::ParsedLine;
use crate::pipeline::{
    catalog_view, find_item, marker_capacities, output_view, pipeline, resolve, run, segments,
    lemma_segment_count,
};

verus! {

/// A stack request whose identifier the catalog knows.
pub open spec fn is_resolvable(catalog: Seq<ItemView>, l: ParsedLine) -> bool {
    match l {
        ParsedLine::ItemStackLine { id, .. } => find_item(catalog, id) is Some,
        _ => false,
    }
}

proof fn lemma_run_len(v: InventoryView, stacks: Seq<StackView>)
    ensures
        run(v, stacks).0.len() == stacks.len(),
    decreases stacks.len(),
{
    if stacks.len() > 0 {
        lemma_run_len(v, stacks.drop_last());
    }
}

proof fn lemma_resolve_len(catalog: Seq<ItemView>, segment: Seq<ParsedLine>)
    ensures
        resolve(catalog, segment).len() == segment.filter(
            |l: ParsedLine| is_resolvable(catalog, l),
        ).len(),
    decreases segment.len(),
{
    reveal(Seq::filter);
    if segment.len() > 0 {
        lemma_resolve_len(catalog, segment.drop_last());
    }
}

/// Each inventory's audit log has exactly one line per stack request of its run
/// whose identifier the catalog knows; unknown identifiers leave no line.
pub proof fn lemma_log_count(catalog: Seq<ItemView>, lines: Seq<ParsedLine>)
    ensures
        forall|k: int|
            0 <= k < pipeline(catalog, lines).len() ==> (#[trigger] pipeline(catalog, lines)[k]).0.len()
                == segments(lines)[k + 1].filter(|l: ParsedLine| is_resolvable(catalog, l)).len(),
{
    lemma_segment_count(lines);
    assert forall|k: int| 0 <= k < pipeline(catalog, lines).len() implies (
    #[trigger] pipeline(catalog, lines)[k]).0.len() == segments(lines)[k + 1].filter(
        |l: ParsedLine| is_resolvable(catalog, l),
    ).len() by {
        let seg = segments(lines)[k + 1];
        lemma_run_len(
            empty_inventory(marker_capacities(lines)[k] as nat),
            resolve(catalog, seg),
        );
        lemma_resolve_len(catalog, seg);
    }
}

/// Deciding on stacks keeps the inventory within its capacity, keeps the capacity,
/// and never lowers the room taken.
proof fn lemma_run_keeps_ok(v: InventoryView, stacks: Seq<StackView>)
    requires
        inventory_ok(v),
    ensures
        inventory_ok(run(v, stacks).1),
        run(v, stacks).1.max_size == v.max_size,
        run(v, stacks).1.occupied >= v.occupied,
    decreases stacks.len(),
{
    if stacks.len() > 0 {
        lemma_run_keeps_ok(v, stacks.drop_last());
        let w = run(v, stacks.drop_last()).1;
        assert(w.stored.push(stacks.last()).drop_last() =~= w.stored);
    }
}

/// Every inventory that comes out keeps its marker's capacity, and the stacks it
/// stored take together exactly the room it reports, never more than that capacity.
pub proof fn lemma_capacity_respected(catalog: Seq<ItemView>, lines: Seq<ParsedLine>)
    ensures
        forall|k: int|
            0 <= k < pipeline(catalog, lines).len() ==> {
                let v = (#[trigger] pipeline(catalog, lines)[k]).1;
                &&& inventory_ok(v)
                &&& v.occupied == total_size(v.stored)
                &&& v.occupied <= v.max_size
                &&& v.max_size == marker_capacities(lines)[k] as nat
            },
{
    lemma_segment_count(lines);
    assert forall|k: int| 0 <= k < pipeline(catalog, lines).len() implies {
        let v = (#[trigger] pipeline(catalog, lines)[k]).1;
        &&& inventory_ok(v)
        &&& v.occupied == total_size(v.stored)
        &&& v.occupied <= v.max_size
        &&& v.max_size == marker_capacities(lines)[k] as nat
    } by {
        lemma_run_keeps_ok(
            empty_inventory(marker_capacities(lines)[k] as nat),
            resolve(catalog, segments(lines)[k + 1]),
        );
    }
}

/// The room taken never goes down from one decision to a later one, and what was
/// stored earlier stays stored, in the same order, at the front.
pub proof fn lemma_occupancy_never_decreases(v: InventoryView, stacks: Seq<StackView>, i: int, j: int)
    requires
        inventory_ok(v),
        0 <= i <= j <= stacks.len(),
    ensures
        run(v, stacks.take(i)).1.occupied <= run(v, stacks.take(j)).1.occupied,
        run(v, stacks.take(i)).1.stored.is_prefix_of(run(v, stacks.take(j)).1.stored),
    decreases j - i,
{
    if i < j {
        lemma_occupancy_never_decreases(v, stacks, i, j - 1);
        assert(stacks.take(j).drop_last() =~= stacks.take(j - 1));
    }
}

proof fn lemma_resolve_concat(catalog: Seq<ItemView>, a: Seq<ParsedLine>, b: Seq<ParsedLine>)
    ensures
        resolve(catalog, a + b) == resolve(catalog, a) + resolve(catalog, b),
    decreases b.len(),
{
    if b.len() == 0 {
        assert(a + b =~= a);
        assert(resolve(catalog, a) + resolve(catalog, b) =~= resolve(catalog, a));
    } else {
        lemma_resolve_concat(catalog, a, b.drop_last());
        assert((a + b).drop_last() =~= a + b.drop_last());
        let prefix = resolve(catalog, a);
        let rest = resolve(catalog, b.drop_last());
        assert forall|x: StackView| prefix + rest.push(x) =~= (prefix + rest).push(x) by {}
    }
}

proof fn lemma_run_concat(v: InventoryView, s: Seq<StackView>, t: Seq<StackView>)
    ensures
        run(v, s + t).0 == run(v, s).0 + run(run(v, s).1, t).0,
        run(v, s + t).1 == run(run(v, s).1, t).1,
    decreases t.len(),
{
    if t.len() == 0 {
        assert(s + t =~= s);
        assert(run(v, s).0 + run(run(v, s).1, t).0 =~= run(v, s).0);
    } else {
        lemma_run_concat(v, s, t.drop_last());
        assert((s + t).drop_last() =~= s + t.drop_last());
        let u = run(run(v, s).1, t.drop_last());
        let step = store_step(u.1, t.last());
        let line = log_line(step.0, stack_size(t.last()), t.last().item.name);
        assert(run(v, s).0 + u.0.push(line) =~= (run(v, s).0 + u.0).push(line));
    }
}

/// Order is kept: the stacks resolved from two runs of records placed one after the
/// other are those of the first run followed by those of the second, and the audit
/// log of the whole is the log of the first part followed by the log of the second,
/// taken from where the first part left the inventory.
pub proof fn lemma_order_preserved(
    catalog: Seq<ItemView>,
    a: Seq<ParsedLine>,
    b: Seq<ParsedLine>,
    v: InventoryView,
)
    ensures
        resolve(catalog, a + b) == resolve(catalog, a) + resolve(catalog, b),
        run(v, resolve(catalog, a + b)).0 == run(v, resolve(catalog, a)).0 + run(
            run(v, resolve(catalog, a)).1,
            resolve(catalog, b),
        ).0,
        run(v, resolve(catalog, a + b)).1 == run(run(v, resolve(catalog, a)).1, resolve(catalog, b)).1,
{
    lemma_resolve_concat(catalog, a, b);
    lemma_run_concat(v, resolve(catalog, a), resolve(catalog, b));
}

/// Two runs on the same catalog and the same records give the same logs and the
/// same inventories.
pub proof fn lemma_deterministic(
    items1: Seq<Item>,
    items2: Seq<Item>,
    lines: Seq<ParsedLine>,
    r1: Seq<(Vec<String>, Inventory)>,
    r2: Seq<(Vec<String>, Inventory)>,
)
    requires
        catalog_view(items1) == catalog_view(items2),
        output_view(r1) == pipeline(catalog_view(items1), lines),
        output_view(r2) == pipeline(catalog_view(items2), lines),
    ensures
        output_view(r1) == output_view(r2),
{
}

} // verus!
