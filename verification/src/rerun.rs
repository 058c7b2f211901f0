//! What a second materialization finds after a complete one.

use vstd::prelude::*;

use crate::addressing::{free_of, law_key_injective, separable};
use crate::materialize::{
    all_pending, all_settled, all_targets, derived_coords, derived_key, pending, records,
    selected_rules, settled, source_slice, sources, up_to_date, work_for, WorkItemView,
};
use crate::memo::lemma_targets;
use crate::proto::{machine_after, outcome};
use crate::reading::{
    cell_in_place, law_provenance, law_slice_members, law_sound_served, local_cell, sound,
};
use crate::service::derived_request;
use crate::sorted_map::{
    inserted, key_order, lemma_key_order_insert, lemma_key_order_lists, values_in_order,
};
use crate::space::{
    canonical_key, compatible, CellView, DerivationView, MachineView, RuleView, SpaceView,
    ValueView, REPRESENTATION,
};
use crate::text::{text_lt, Text};

verus! {

/// The machine once the conversions of several items are recorded, one after the other.
pub open spec fn recorded(
    m: MachineView,
    writer: Text,
    space: Text,
    items: Seq<WorkItemView>,
    values: Seq<ValueView>,
) -> MachineView
    decreases items.len(),
{
    if items.len() == 0 {
        m
    } else {
        let before = recorded(m, writer, space, items.drop_last(), values.drop_last());
        machine_after(
            before,
            outcome(before, writer, derived_request(space, items.last(), values.last())).op,
        )
    }
}

/// Is a cell read by one of several rules?
pub open spec fn reads(
    m: MachineView,
    space: Text,
    rules: Seq<RuleView>,
    rule: RuleView,
    cell: CellView,
) -> bool {
    rules.contains(rule) && sources(m, space, rule).contains(cell)
}

/// The rules do not get in each other's way: no rule reads what one of them derives, no
/// target takes the place of what is read, and what stands for the same target has the
/// same key.
pub open spec fn independent(m: MachineView, space: Text, rules: Seq<RuleView>) -> bool {
    &&& forall|r: RuleView, c: CellView, q: RuleView|
        #![trigger reads(m, space, rules, r, c), rules.contains(q)]
        reads(m, space, rules, r, c) && rules.contains(q) ==> !compatible(
            derived_coords(r, c),
            source_slice(q),
        )
    &&& forall|r: RuleView, c: CellView, q: RuleView, d: CellView|
        #![trigger reads(m, space, rules, r, c), reads(m, space, rules, q, d)]
        reads(m, space, rules, r, c) && reads(m, space, rules, q, d) ==> canonical_key(
            derived_coords(r, c),
        ) != canonical_key(d.coords) && (canonical_key(derived_coords(r, c)) == canonical_key(
            derived_coords(q, d),
        ) ==> derived_key(r, c) == derived_key(q, d))
}

spec fn due(
    m: MachineView,
    space: Text,
    rules: Seq<RuleView>,
    r: RuleView,
    c: CellView,
    w: WorkItemView,
) -> bool {
    reads(m, space, rules, r, c) && !up_to_date(m.spaces[space], r, c) && w == work_for(r, c)
}

proof fn lemma_pending(m: MachineView, space: Text, rule: RuleView, w: WorkItemView)
    ensures
        pending(m, space, rule).contains(w) <==> exists|c: CellView| #[trigger]
            sources(m, space, rule).contains(c) && !up_to_date(m.spaces[space], rule, c) && w
                == work_for(rule, c),
{
    let all = sources(m, space, rule);
    let keep = |c: CellView| !up_to_date(m.spaces[space], rule, c);
    let left = all.filter(keep);
    let items = pending(m, space, rule);
    if items.contains(w) {
        let i = choose|i: int| 0 <= i < items.len() && items[i] == w;
        all.lemma_filter_pred(keep, i);
        assert(left.contains(left[i]));
        all.lemma_filter_contains_rev(keep, left[i]);
    }
    if exists|c: CellView| #[trigger]
        all.contains(c) && !up_to_date(m.spaces[space], rule, c) && w == work_for(rule, c) {
        let c = choose|c: CellView| #[trigger]
            all.contains(c) && !up_to_date(m.spaces[space], rule, c) && w == work_for(rule, c);
        let j = choose|j: int| 0 <= j < all.len() && all[j] == c;
        all.lemma_filter_contains(keep, j);
        let i = choose|i: int| 0 <= i < left.len() && left[i] == c;
        assert(items[i] == w);
    }
}

proof fn lemma_due_apart(
    m: MachineView,
    space: Text,
    rules: Seq<RuleView>,
    r: RuleView,
    c: CellView,
    w: WorkItemView,
)
    requires
        rules.len() > 0,
    ensures
        due(m, space, rules, r, c, w) <==> due(m, space, rules.drop_last(), r, c, w) || (r
            == rules.last() && sources(m, space, r).contains(c) && !up_to_date(
            m.spaces[space],
            r,
            c,
        ) && w == work_for(r, c)),
{
    let rest = rules.drop_last();
    assert(rules.contains(r) <==> rest.contains(r) || r == rules.last()) by {
        assert(rules[rules.len() - 1] == rules.last());
        if rules.contains(r) && r != rules.last() {
            let j = choose|j: int| 0 <= j < rules.len() && rules[j] == r;
            assert(rest[j] == r);
        }
        if rest.contains(r) {
            let i = choose|i: int| 0 <= i < rest.len() && rest[i] == r;
            assert(rules[i] == r);
        }
    }
}

proof fn lemma_contains_sum(a: Seq<WorkItemView>, b: Seq<WorkItemView>, w: WorkItemView)
    ensures
        (a + b).contains(w) <==> a.contains(w) || b.contains(w),
{
    let all = a + b;
    if all.contains(w) {
        let i = choose|i: int| 0 <= i < all.len() && all[i] == w;
        if i < a.len() {
            assert(a[i] == w);
        } else {
            assert(b[i - a.len()] == w);
        }
    }
    if a.contains(w) {
        let i = choose|i: int| 0 <= i < a.len() && a[i] == w;
        assert(all[i] == w);
    }
    if b.contains(w) {
        let i = choose|i: int| 0 <= i < b.len() && b[i] == w;
        assert(all[a.len() + i] == w);
    }
}

proof fn lemma_all_pending(m: MachineView, space: Text, rules: Seq<RuleView>, w: WorkItemView)
    ensures
        all_pending(m, space, rules).contains(w) <==> exists|r: RuleView, c: CellView| #[trigger]
            due(m, space, rules, r, c, w),
    decreases rules.len(),
{
    if rules.len() > 0 {
        let rest = rules.drop_last();
        let last = rules.last();
        let head = all_pending(m, space, rest);
        let tail = pending(m, space, last);
        lemma_all_pending(m, space, rest, w);
        lemma_contains_sum(head, tail, w);
        lemma_pending(m, space, last, w);
        if head.contains(w) {
            let (r, c) = choose|r: RuleView, c: CellView| #[trigger] due(m, space, rest, r, c, w);
            lemma_due_apart(m, space, rules, r, c, w);
            assert(due(m, space, rules, r, c, w));
        }
        if tail.contains(w) {
            let c = choose|c: CellView| #[trigger]
                sources(m, space, last).contains(c) && !up_to_date(m.spaces[space], last, c) && w
                    == work_for(last, c);
            lemma_due_apart(m, space, rules, last, c, w);
            assert(due(m, space, rules, last, c, w));
        }
        if exists|r: RuleView, c: CellView| #[trigger] due(m, space, rules, r, c, w) {
            let (r, c) = choose|r: RuleView, c: CellView| #[trigger] due(m, space, rules, r, c, w);
            lemma_due_apart(m, space, rules, r, c, w);
            if due(m, space, rest, r, c, w) {
                assert(head.contains(w));
            } else {
                assert(tail.contains(w));
            }
        }
    } else {
        assert forall|r: RuleView, c: CellView| !(#[trigger] due(m, space, rules, r, c, w)) by {
            assert(!rules.contains(r));
        }
    }
}

/// An item whose target is read by no rule and takes the place of nothing that is read.
spec fn out_of_the_way(
    m: MachineView,
    space: Text,
    rules: Seq<RuleView>,
    item: WorkItemView,
) -> bool {
    &&& forall|q: RuleView| #[trigger]
        rules.contains(q) ==> !compatible(item.target, source_slice(q))
    &&& forall|q: RuleView, d: CellView| #[trigger]
        reads(m, space, rules, q, d) ==> canonical_key(item.target) != canonical_key(d.coords)
}

proof fn lemma_filter_alike(a: Seq<CellView>, b: Seq<CellView>, keep: spec_fn(CellView) -> bool)
    requires
        a.len() == b.len(),
        forall|i: int|
            0 <= i < a.len() ==> #[trigger] a[i] == b[i] || (!keep(a[i]) && !keep(b[i])),
    ensures
        a.filter(keep) == b.filter(keep),
    decreases a.len(),
{
    reveal(Seq::filter);
    if a.len() > 0 {
        let x = a.drop_last();
        let y = b.drop_last();
        assert forall|i: int| 0 <= i < x.len() implies #[trigger] x[i] == y[i] || (!keep(x[i])
            && !keep(y[i])) by {
            assert(x[i] == a[i] && y[i] == b[i]);
        }
        lemma_filter_alike(x, y, keep);
        assert(a[a.len() - 1] == b[a.len() - 1] || (!keep(a.last()) && !keep(b.last())));
    }
}

proof fn lemma_filter_inserted(
    keys: Seq<Text>,
    k: Text,
    f: spec_fn(Text) -> CellView,
    keep: spec_fn(CellView) -> bool,
)
    requires
        !keep(f(k)),
    ensures
        inserted(keys, k).map_values(f).filter(keep) == keys.map_values(f).filter(keep),
    decreases keys.len(),
{
    reveal(Seq::filter);
    let all = inserted(keys, k).map_values(f);
    if keys.len() == 0 || text_lt(keys.last(), k) {
        assert(all.drop_last() =~= keys.map_values(f));
        assert(all.last() == f(k));
    } else {
        let rest = keys.drop_last();
        lemma_filter_inserted(rest, k, f, keep);
        assert(all.drop_last() =~= inserted(rest, k).map_values(f));
        assert(all.last() == f(keys.last()));
        assert(keys.map_values(f).drop_last() =~= rest.map_values(f));
        assert(keys.map_values(f).last() == f(keys.last()));
    }
}

/// A cell that is not kept, put in place of nothing that is kept, changes nothing of
/// what is kept.
proof fn lemma_values_insert(
    cells: Map<Text, CellView>,
    k: Text,
    c: CellView,
    keep: spec_fn(CellView) -> bool,
)
    requires
        cells.dom().finite(),
        !keep(c),
        cells.contains_key(k) ==> !keep(cells[k]),
    ensures
        values_in_order(cells.insert(k, c)).filter(keep) == values_in_order(cells).filter(keep),
{
    let more = cells.insert(k, c);
    let keys = key_order(cells.dom());
    let old_values = values_in_order(cells);
    let new_values = values_in_order(more);
    lemma_key_order_lists(cells.dom());
    if cells.contains_key(k) {
        assert(more.dom() =~= cells.dom());
        assert forall|i: int| 0 <= i < new_values.len() implies #[trigger] new_values[i]
            == old_values[i] || (!keep(new_values[i]) && !keep(old_values[i])) by {
            assert(new_values[i] == more[keys[i]] && old_values[i] == cells[keys[i]]);
        }
        lemma_filter_alike(new_values, old_values, keep);
    } else {
        assert(more.dom() =~= cells.dom().insert(k));
        lemma_key_order_insert(cells.dom(), k);
        let f = |x: Text| more[x];
        lemma_filter_inserted(keys, k, f, keep);
        assert forall|i: int| 0 <= i < keys.len() implies more[#[trigger] keys[i]]
            == cells[keys[i]] by {
            assert(keys.contains(keys[i]));
            assert(cells.dom().contains(keys[i]));
        }
        assert(keys.map_values(f) =~= old_values);
        assert(new_values =~= inserted(keys, k).map_values(f));
    }
}

/// Items whose targets can be written, and which agree on the key wherever they share a
/// target.
spec fn recordable(items: Seq<WorkItemView>) -> bool {
    &&& forall|i: int|
        0 <= i < items.len() ==> (#[trigger] items[i]).target.dom().finite()
            && items[i].target.contains_key(REPRESENTATION@)
    &&& forall|i: int, j: int|
        0 <= i < items.len() && 0 <= j < items.len() && canonical_key((#[trigger] items[i]).target)
            == canonical_key((#[trigger] items[j]).target) ==> items[i].input_key
            == items[j].input_key
}

spec fn at_target(items: Seq<WorkItemView>, k: Text, j: int) -> bool {
    0 <= j < items.len() && canonical_key(items[j].target) == k
}

spec fn all_recorded(s: SpaceView, t: SpaceView, items: Seq<WorkItemView>) -> bool {
    &&& t.rules == s.rules
    &&& forall|j: int|
        0 <= j < items.len() ==> records(
            t.derived,
            canonical_key((#[trigger] items[j]).target),
            items[j].input_key,
        )
    &&& forall|k: Text|
        (forall|j: int| !at_target(items, k, j)) ==> #[trigger] t.derived.get(k) == s.derived.get(
            k,
        )
}

proof fn lemma_record_step(
    m: MachineView,
    writer: Text,
    space: Text,
    item: WorkItemView,
    value: ValueView,
)
    requires
        sound(m),
        m.clock < u64::MAX,
        m.spaces.contains_key(space),
        item.target.dom().finite(),
        item.target.contains_key(REPRESENTATION@),
    ensures
        ({
            let n = machine_after(m, outcome(m, writer, derived_request(space, item, value)).op);
            let s = m.spaces[space];
            let t = n.spaces[space];
            let k = canonical_key(item.target);
            &&& sound(n)
            &&& n.clock == m.clock + 1
            &&& n.spaces.contains_key(space)
            &&& t.rules == s.rules
            &&& exists|c: CellView|
                c.coords == item.target && t.cells == #[trigger] s.cells.insert(k, c)
            &&& records(t.derived, k, item.input_key)
            &&& forall|x: Text| x != k ==> #[trigger] t.derived.get(x) == s.derived.get(x)
        }),
{
    let derivation = DerivationView {
        rule_id: item.rule_id,
        converter: item.converter,
        input_key: item.input_key,
    };
    assert(item.target != Map::<Text, Text>::empty());
    law_provenance(m, writer, space, item.target, value, derivation);
    law_sound_served(m, writer, derived_request(space, item, value));
    let c = local_cell(m, writer, item.target, Some(value));
    let n = machine_after(m, outcome(m, writer, derived_request(space, item, value)).op);
    let k = canonical_key(item.target);
    assert(n.spaces[space].cells =~= m.spaces[space].cells.insert(k, c));
}

proof fn lemma_recorded(
    m: MachineView,
    writer: Text,
    space: Text,
    rules: Seq<RuleView>,
    items: Seq<WorkItemView>,
    values: Seq<ValueView>,
)
    requires
        sound(m),
        m.spaces.contains_key(space),
        m.clock + items.len() <= u64::MAX,
        recordable(items),
        forall|i: int|
            0 <= i < items.len() ==> out_of_the_way(m, space, rules, #[trigger] items[i]),
    ensures
        ({
            let n = recorded(m, writer, space, items, values);
            &&& sound(n)
            &&& n.spaces.contains_key(space)
            &&& n.clock == m.clock + items.len()
            &&& all_recorded(m.spaces[space], n.spaces[space], items)
            &&& forall|q: RuleView| #[trigger]
                rules.contains(q) ==> sources(n, space, q) == sources(m, space, q)
        }),
    decreases items.len(),
{
    if items.len() > 0 {
        let rest = items.drop_last();
        let item = items.last();
        let at = items.len() - 1;
        assert forall|i: int| 0 <= i < rest.len() implies (
        #[trigger] rest[i]).target.dom().finite() && rest[i].target.contains_key(
            REPRESENTATION@,
        ) by {
            assert(rest[i] == items[i]);
        }
        assert forall|i: int, j: int|
            0 <= i < rest.len() && 0 <= j < rest.len() && canonical_key(
                (#[trigger] rest[i]).target,
            ) == canonical_key((#[trigger] rest[j]).target) implies rest[i].input_key
            == rest[j].input_key by {
            assert(rest[i] == items[i] && rest[j] == items[j]);
        }
        assert forall|i: int| 0 <= i < rest.len() implies out_of_the_way(
            m,
            space,
            rules,
            #[trigger] rest[i],
        ) by {
            assert(rest[i] == items[i]);
        }
        lemma_recorded(m, writer, space, rules, rest, values.drop_last());
        let b = recorded(m, writer, space, rest, values.drop_last());
        let n = recorded(m, writer, space, items, values);
        assert(items[at] == item);
        lemma_record_step(b, writer, space, item, values.last());
        let s = m.spaces[space];
        let mid = b.spaces[space];
        let t = n.spaces[space];
        let k = canonical_key(item.target);
        assert(at_target(items, k, at));
        let c = choose|c: CellView|
            c.coords == item.target && t.cells == #[trigger] mid.cells.insert(k, c);
        assert forall|q: RuleView| #[trigger] rules.contains(q) implies sources(n, space, q)
            == sources(m, space, q) by {
            let fixed = source_slice(q);
            let keep = |x: CellView| x.value is Some && compatible(x.coords, fixed);
            assert(out_of_the_way(m, space, rules, items[at]));
            if mid.cells.contains_key(k) && keep(mid.cells[k]) {
                let old = mid.cells[k];
                law_slice_members(b, space, fixed, old);
                assert(cell_in_place(mid, b.clock, k));
                assert(reads(m, space, rules, q, old));
            }
            lemma_values_insert(mid.cells, k, c, keep);
        }
        assert forall|j: int| 0 <= j < items.len() implies records(
            t.derived,
            canonical_key((#[trigger] items[j]).target),
            items[j].input_key,
        ) by {
            let x = canonical_key(items[j].target);
            if x == k {
                assert(items[j].input_key == items[at].input_key);
            } else {
                assert(rest[j] == items[j]);
                assert(t.derived.get(x) == mid.derived.get(x));
            }
        }
        assert forall|x: Text|
            (forall|j: int| !at_target(items, x, j)) implies #[trigger] t.derived.get(x)
            == s.derived.get(x) by {
            assert(!at_target(items, x, at));
            assert forall|j: int| !at_target(rest, x, j) by {
                if at_target(rest, x, j) {
                    assert(rest[j] == items[j]);
                    assert(at_target(items, x, j));
                }
            }
            assert(mid.derived.get(x) == s.derived.get(x));
        }
    }
}

proof fn lemma_items_recordable(m: MachineView, space: Text, rules: Seq<RuleView>)
    requires
        sound(m),
        m.spaces.contains_key(space),
        independent(m, space, rules),
    ensures
        recordable(all_pending(m, space, rules)),
        forall|i: int|
            0 <= i < all_pending(m, space, rules).len() ==> out_of_the_way(
                m,
                space,
                rules,
                #[trigger] all_pending(m, space, rules)[i],
            ),
{
    let items = all_pending(m, space, rules);
    assert forall|i: int| 0 <= i < items.len() implies out_of_the_way(
        m,
        space,
        rules,
        #[trigger] items[i],
    ) by {
        assert(items.contains(items[i]));
        lemma_all_pending(m, space, rules, items[i]);
        let (r, c) = choose|r: RuleView, c: CellView| #[trigger]
            due(m, space, rules, r, c, items[i]);
        assert(reads(m, space, rules, r, c));
    }
    assert forall|i: int| 0 <= i < items.len() implies (#[trigger] items[i]).target.dom().finite()
        && items[i].target.contains_key(REPRESENTATION@) by {
        assert(items.contains(items[i]));
        lemma_all_pending(m, space, rules, items[i]);
        let (r, c) = choose|r: RuleView, c: CellView| #[trigger]
            due(m, space, rules, r, c, items[i]);
        law_slice_members(m, space, source_slice(r), c);
        let k = choose|k: Text| #[trigger]
            m.spaces[space].cells.contains_key(k) && m.spaces[space].cells[k] == c;
        assert(cell_in_place(m.spaces[space], m.clock, k));
    }
    assert forall|i: int, j: int|
        0 <= i < items.len() && 0 <= j < items.len() && canonical_key((#[trigger] items[i]).target)
            == canonical_key((#[trigger] items[j]).target) implies items[i].input_key
        == items[j].input_key by {
        assert(items.contains(items[i]) && items.contains(items[j]));
        lemma_all_pending(m, space, rules, items[i]);
        lemma_all_pending(m, space, rules, items[j]);
        let (r, c) = choose|r: RuleView, c: CellView| #[trigger]
            due(m, space, rules, r, c, items[i]);
        let (q, d) = choose|q: RuleView, d: CellView| #[trigger]
            due(m, space, rules, q, d, items[j]);
        assert(reads(m, space, rules, r, c) && reads(m, space, rules, q, d));
    }
}

proof fn lemma_same_targets(
    m: MachineView,
    n: MachineView,
    space: Text,
    rules: Seq<RuleView>,
)
    requires
        forall|q: RuleView| #[trigger]
            rules.contains(q) ==> sources(n, space, q) == sources(m, space, q),
    ensures
        all_targets(n, space, rules) == all_targets(m, space, rules),
    decreases rules.len(),
{
    if rules.len() > 0 {
        let rest = rules.drop_last();
        assert forall|q: RuleView| #[trigger] rest.contains(q) implies sources(n, space, q)
            == sources(m, space, q) by {
            let i = choose|i: int| 0 <= i < rest.len() && rest[i] == q;
            assert(rules[i] == q);
            assert(rules.contains(q));
        }
        assert(rules.contains(rules.last()));
        lemma_same_targets(m, n, space, rest);
    }
}

/// Nothing is converted twice: once every item of a plan is recorded, a second plan
/// over the same rules has nothing to do and passes over what the first passed over and
/// what it planned, provided that the rules do not get in each other's way.
pub proof fn law_second_run_idle(
    m: MachineView,
    writer: Text,
    space: Text,
    only: Option<Text>,
    values: Seq<ValueView>,
)
    requires
        sound(m),
        m.spaces.contains_key(space),
        m.clock + all_pending(m, space, selected_rules(m, space, only)).len() <= u64::MAX,
        independent(m, space, selected_rules(m, space, only)),
    ensures
        ({
            let rules = selected_rules(m, space, only);
            let items = all_pending(m, space, rules);
            let n = recorded(m, writer, space, items, values);
            &&& selected_rules(n, space, only) == rules
            &&& all_pending(n, space, rules) == Seq::<WorkItemView>::empty()
            &&& all_settled(n, space, rules) == all_settled(m, space, rules) + items.len()
        }),
{
    let rules = selected_rules(m, space, only);
    let items = all_pending(m, space, rules);
    let n = recorded(m, writer, space, items, values);
    let s = m.spaces[space];
    lemma_items_recordable(m, space, rules);
    lemma_recorded(m, writer, space, rules, items, values);
    let t = n.spaces[space];
    assert(selected_rules(n, space, only) == rules);
    let again = all_pending(n, space, rules);
    if again.len() > 0 {
        let w = again[0];
        assert(again.contains(w));
        lemma_all_pending(n, space, rules, w);
        let (r, c) = choose|r: RuleView, c: CellView| #[trigger] due(n, space, rules, r, c, w);
        assert(rules.contains(r));
        assert(reads(m, space, rules, r, c));
        let x = canonical_key(derived_coords(r, c));
        if up_to_date(s, r, c) {
            if exists|j: int| at_target(items, x, j) {
                let j = choose|j: int| at_target(items, x, j);
                assert(items.contains(items[j]));
                lemma_all_pending(m, space, rules, items[j]);
                let (q, d) = choose|q: RuleView, d: CellView| #[trigger]
                    due(m, space, rules, q, d, items[j]);
                assert(reads(m, space, rules, q, d));
                assert(derived_key(r, c) == derived_key(q, d));
                assert(records(t.derived, canonical_key(items[j].target), items[j].input_key));
            } else {
                assert(t.derived.get(x) == s.derived.get(x));
            }
        } else {
            let missed = work_for(r, c);
            assert(due(m, space, rules, r, c, missed));
            lemma_all_pending(m, space, rules, missed);
            let j = choose|j: int| 0 <= j < items.len() && items[j] == missed;
            assert(records(t.derived, canonical_key(items[j].target), items[j].input_key));
        }
    }
    assert(again =~= Seq::<WorkItemView>::empty());
    lemma_same_targets(m, n, space, rules);
    lemma_targets(m, space, rules);
    lemma_targets(n, space, rules);
}

proof fn lemma_one_rule(m: MachineView, space: Text, rule: RuleView)
    ensures
        all_pending(m, space, seq![rule]) == pending(m, space, rule),
        all_settled(m, space, seq![rule]) == settled(m, space, rule),
{
    let rules = seq![rule];
    let none = rules.drop_last();
    assert(none.len() == 0);
    assert(all_pending(m, space, none) =~= Seq::<WorkItemView>::empty());
    assert(all_settled(m, space, none) == 0);
    assert(rules.last() == rule);
    assert(all_pending(m, space, rules) =~= pending(m, space, rule));
}

/// With a single rule that derives another plane than it reads, what was materialized is
/// not converted again: the second plan is empty and passes over all that the first
/// passed over or planned. The separators of canonical keys must stand for nothing else
/// in the addresses, and what stands for the same target must have the same key.
pub proof fn law_single_rule_idle(
    m: MachineView,
    writer: Text,
    space: Text,
    rule: RuleView,
    values: Seq<ValueView>,
)
    requires
        sound(m),
        m.spaces.contains_key(space),
        selected_rules(m, space, None) == seq![rule],
        m.clock + pending(m, space, rule).len() <= u64::MAX,
        rule.target_representation != source_slice(rule)[REPRESENTATION@],
        free_of(rule.target_representation, '\u{1f}'),
        forall|c: CellView| #[trigger]
            sources(m, space, rule).contains(c) ==> separable(c.coords),
        forall|c: CellView, d: CellView| #[trigger]
            sources(m, space, rule).contains(c) && #[trigger] sources(m, space, rule).contains(d)
                && canonical_key(derived_coords(rule, c)) == canonical_key(derived_coords(rule, d))
                ==> derived_key(rule, c) == derived_key(rule, d),
    ensures
        ({
            let items = pending(m, space, rule);
            let n = recorded(m, writer, space, items, values);
            &&& selected_rules(n, space, None) == seq![rule]
            &&& pending(n, space, rule) == Seq::<WorkItemView>::empty()
            &&& settled(n, space, rule) == settled(m, space, rule) + items.len()
        }),
{
    let rules = seq![rule];
    let items = pending(m, space, rule);
    lemma_one_rule(m, space, rule);
    assert(rules[0] == rule);
    assert forall|r: RuleView| #[trigger] rules.contains(r) <==> r == rule by {}
    assert forall|r: RuleView, c: CellView, q: RuleView|
        #![trigger reads(m, space, rules, r, c), rules.contains(q)]
        reads(m, space, rules, r, c) && rules.contains(q) implies !compatible(
        derived_coords(r, c),
        source_slice(q),
    ) by {
        assert(source_slice(rule).contains_key(REPRESENTATION@));
        assert(derived_coords(rule, c).contains_key(REPRESENTATION@));
    }
    assert forall|r: RuleView, c: CellView, q: RuleView, d: CellView|
        #![trigger reads(m, space, rules, r, c), reads(m, space, rules, q, d)]
        reads(m, space, rules, r, c) && reads(m, space, rules, q, d) implies canonical_key(
        derived_coords(r, c),
    ) != canonical_key(d.coords) && (canonical_key(derived_coords(r, c)) == canonical_key(
        derived_coords(q, d),
    ) ==> derived_key(r, c) == derived_key(q, d)) by {
        let target = derived_coords(rule, c);
        law_slice_members(m, space, source_slice(rule), c);
        law_slice_members(m, space, source_slice(rule), d);
        let x = choose|x: Text| #[trigger]
            m.spaces[space].cells.contains_key(x) && m.spaces[space].cells[x] == c;
        let y = choose|y: Text| #[trigger]
            m.spaces[space].cells.contains_key(y) && m.spaces[space].cells[y] == d;
        assert(cell_in_place(m.spaces[space], m.clock, x));
        assert(cell_in_place(m.spaces[space], m.clock, y));
        if canonical_key(target) == canonical_key(d.coords) {
            reveal_strlit("representation");
            assert(separable(target)) by {
                assert forall|z: Text| #[trigger] target.contains_key(z) implies free_of(z, '=')
                    && free_of(z, '\u{1f}') && free_of(target[z], '\u{1f}') by {
                    if z != REPRESENTATION@ {
                        assert(c.coords.contains_key(z));
                    }
                }
            }
            law_key_injective(target, d.coords);
            assert(reads(m, space, rules, rule, c));
            assert(source_slice(rule).contains_key(REPRESENTATION@));
            assert(target.contains_key(REPRESENTATION@));
        }
    }
    law_second_run_idle(m, writer, space, None, values);
    let n = recorded(m, writer, space, items, values);
    lemma_one_rule(n, space, rule);
}

} // verus!
