//! What the answers to reads say of the spaces: point reads, slices, descriptions and
//! listings, each told by the cells, dimensions and rules themselves.

use vstd::prelude::*;

use crate::proto::{machine_after, outcome, RequestView, ResponseView};
use crate::sorted_map::{key_order, lemma_key_order_lists, values_in_order};
use crate::space::{
    applying, canonical_key, cells_of, compatible, is_best, lemma_filter_step, outranks, resolved,
    sliced, CellView, CoordsView, MachineView, RuleView,
};
use crate::text::{lemma_text_lt_irreflexive, text_lt, Text};

verus! {

/// The keys of the entries that are kept, in ascending order.
pub(crate) proof fn lemma_kept_keys<A>(m: Map<Text, A>, keep: spec_fn(A) -> bool) -> (keys: Seq<
    Text,
>)
    requires
        m.dom().finite(),
    ensures
        values_in_order(m).filter(keep) == keys.map_values(|k: Text| m[k]),
        forall|i: int, j: int|
            0 <= i < j < keys.len() ==> text_lt(#[trigger] keys[i], #[trigger] keys[j]),
        forall|k: Text| #[trigger] keys.contains(k) <==> m.contains_key(k) && keep(m[k]),
{
    let order = key_order(m.dom());
    lemma_key_order_lists(m.dom());
    let keys = lemma_kept_prefix(m, keep, order, order.len() as int);
    assert(order.take(order.len() as int) =~= order);
    assert(values_in_order(m).take(order.len() as int) =~= values_in_order(m));
    assert forall|k: Text| #[trigger] keys.contains(k) <==> m.contains_key(k) && keep(m[k]) by {
        assert(m.dom().contains(k) <==> order.contains(k));
    }
    keys
}

proof fn lemma_kept_prefix<A>(
    m: Map<Text, A>,
    keep: spec_fn(A) -> bool,
    order: Seq<Text>,
    n: int,
) -> (keys: Seq<Text>)
    requires
        order == key_order(m.dom()),
        0 <= n <= order.len(),
        forall|i: int, j: int|
            0 <= i < j < order.len() ==> text_lt(#[trigger] order[i], #[trigger] order[j]),
    ensures
        values_in_order(m).take(n).filter(keep) == keys.map_values(|k: Text| m[k]),
        forall|i: int, j: int|
            0 <= i < j < keys.len() ==> text_lt(#[trigger] keys[i], #[trigger] keys[j]),
        forall|k: Text| #[trigger]
            keys.contains(k) <==> order.take(n).contains(k) && keep(m[k]),
    decreases n,
{
    let all = values_in_order(m);
    let value = |k: Text| m[k];
    if n == 0 {
        reveal(Seq::filter);
        assert(all.take(0) =~= Seq::<A>::empty());
        assert(Seq::<Text>::empty().map_values(value) =~= Seq::<A>::empty());
        assert(order.take(0) =~= Seq::<Text>::empty());
        Seq::empty()
    } else {
        let before = lemma_kept_prefix(m, keep, order, n - 1);
        let k = order[n - 1];
        let head = order.take(n - 1);
        lemma_filter_step(all, keep, n - 1);
        assert(all[n - 1] == m[k]);
        assert(order.take(n) =~= order.take(n - 1).push(k));
        assert forall|x: Text| #[trigger]
            order.take(n).contains(x) <==> order.take(n - 1).contains(x) || x == k by {
            if order.take(n - 1).contains(x) {
                let i = choose|i: int| 0 <= i < head.len() && head[i] == x;
                assert(order.take(n)[i] == x);
            }
            assert(order.take(n)[n - 1] == k);
        }
        if keep(m[k]) {
            let keys = before.push(k);
            assert(keys.map_values(value) =~= before.map_values(value).push(m[k]));
            assert forall|i: int, j: int| 0 <= i < j < keys.len() implies text_lt(
                #[trigger] keys[i],
                #[trigger] keys[j],
            ) by {
                if j == before.len() {
                    assert(before.contains(before[i]));
                    let p = choose|p: int| 0 <= p < head.len() && head[p] == before[i];
                    assert(text_lt(order[p], order[n - 1]));
                }
            }
            assert forall|x: Text| #[trigger] keys.contains(x) <==> order.take(n).contains(x)
                && keep(m[x]) by {
                if before.contains(x) {
                    let i = choose|i: int| 0 <= i < before.len() && before[i] == x;
                    assert(keys[i] == x);
                }
                assert(keys[before.len() as int] == k);
            }
            keys
        } else {
            before
        }
    }
}

/// A slice lists, in the order of their keys, exactly the live cells whose address has
/// the fixed coordinate in every dimension that both name; a dimension that a cell leaves
/// open does not keep it out. The keys of the listed cells come back.
pub proof fn law_slice_listed(m: MachineView, space: Text, fixed: CoordsView) -> (keys: Seq<Text>)
    requires
        m.spaces.contains_key(space),
        m.spaces[space].cells.dom().finite(),
    ensures
        ({
            let cells = m.spaces[space].cells;
            let r = sliced(m, space, fixed);
            &&& r.len() == keys.len()
            &&& forall|i: int| 0 <= i < keys.len() ==> #[trigger] r[i] == cells[keys[i]]
            &&& forall|i: int, j: int|
                0 <= i < j < keys.len() ==> text_lt(#[trigger] keys[i], #[trigger] keys[j])
            &&& forall|k: Text| #[trigger]
                keys.contains(k) <==> cells.contains_key(k) && cells[k].value is Some && (forall|
                    d: Text,
                |
                    cells[k].coords.contains_key(d) && #[trigger] fixed.contains_key(d)
                        ==> cells[k].coords[d] == fixed[d])
        }),
{
    let cells = m.spaces[space].cells;
    let keep = |c: CellView| c.value is Some && compatible(c.coords, fixed);
    let keys = lemma_kept_keys(cells, keep);
    assert(sliced(m, space, fixed) == keys.map_values(|k: Text| cells[k]));
    keys
}

/// A live cell is in a slice exactly where its address has the fixed coordinate in every
/// dimension that both name.
pub proof fn law_in_slice(m: MachineView, space: Text, fixed: CoordsView, k: Text)
    requires
        m.spaces.contains_key(space),
        m.spaces[space].cells.dom().finite(),
        m.spaces[space].cells.contains_key(k),
        m.spaces[space].cells[k].value is Some,
    ensures
        ({
            let c = m.spaces[space].cells[k];
            &&& (forall|d: Text|
                c.coords.contains_key(d) && #[trigger] fixed.contains_key(d) ==> c.coords[d]
                    == fixed[d]) ==> sliced(m, space, fixed).contains(c)
            &&& forall|d: Text|
                c.coords.contains_key(d) && #[trigger] fixed.contains_key(d) && c.coords[d]
                    != fixed[d] ==> !sliced(m, space, fixed).contains(c)
        }),
{
    let c = m.spaces[space].cells[k];
    let r = sliced(m, space, fixed);
    let keys = law_slice_listed(m, space, fixed);
    if keys.contains(k) {
        let i = choose|i: int| 0 <= i < keys.len() && keys[i] == k;
        assert(r[i] == c);
    }
    if r.contains(c) {
        let i = choose|i: int| 0 <= i < r.len() && r[i] == c;
        assert(keys.contains(keys[i]));
    }
}

/// Whatever a slice holds has the fixed coordinate in every dimension that it names.
pub proof fn law_slice_agrees(m: MachineView, space: Text, fixed: CoordsView, i: int, d: Text)
    requires
        0 <= i < sliced(m, space, fixed).len(),
        fixed.contains_key(d),
        sliced(m, space, fixed)[i].coords.contains_key(d),
    ensures
        sliced(m, space, fixed)[i].value is Some,
        sliced(m, space, fixed)[i].coords[d] == fixed[d],
{
    cells_of(m, space).lemma_filter_pred(
        |c: CellView| c.value is Some && compatible(c.coords, fixed),
        i,
    );
}

/// A space that is not there has no cells to read.
pub proof fn law_nothing_there(m: MachineView, space: Text, at: CoordsView)
    requires
        !m.spaces.contains_key(space),
    ensures
        sliced(m, space, at).len() == 0,
        resolved(m, space, at) is None,
{
    reveal(Seq::filter);
}

/// What a point read gives back. A cell applies at the point where it is live and the
/// point has its coordinate in every dimension of its address. Nothing comes back only
/// where no cell applies. Otherwise one that applies comes back: no other that applies has
/// an address of more dimensions; of those with as many none has a later Lamport time; and
/// of those with the same Lamport time the key of none sorts later. Its key comes back
/// too.
pub proof fn law_point_read(m: MachineView, space: Text, at: CoordsView) -> (key: Text)
    requires
        m.spaces.contains_key(space),
        m.spaces[space].cells.dom().finite(),
    ensures
        ({
            let cells = m.spaces[space].cells;
            match resolved(m, space, at) {
                None => forall|k: Text| #[trigger]
                    cells.contains_key(k) && cells[k].value is Some ==> exists|d: Text| #[trigger]
                        cells[k].coords.contains_key(d) && !(at.contains_key(d) && at[d]
                            == cells[k].coords[d]),
                Some(c) => {
                    &&& cells.contains_key(key)
                    &&& cells[key] == c
                    &&& c.value is Some
                    &&& forall|d: Text| #[trigger]
                        c.coords.contains_key(d) ==> at.contains_key(d) && at[d] == c.coords[d]
                    &&& forall|k: Text| #[trigger]
                        cells.contains_key(k) && cells[k].value is Some && (forall|d: Text|
                            #[trigger] cells[k].coords.contains_key(d) ==> at.contains_key(d)
                                && at[d] == cells[k].coords[d]) ==> {
                            let other = cells[k];
                            &&& c.coords.dom().len() >= other.coords.dom().len()
                            &&& c.coords.dom().len() == other.coords.dom().len() ==> c.lamport
                                >= other.lamport
                            &&& c.coords.dom().len() == other.coords.dom().len() && c.lamport
                                == other.lamport ==> k == key || text_lt(k, key)
                        }
                },
            }
        }),
{
    let cells = m.spaces[space].cells;
    let keep = |c: CellView| c.value is Some && c.coords.submap_of(at);
    let keys = lemma_kept_keys(cells, keep);
    let all = applying(m, space, at);
    assert(all == keys.map_values(|k: Text| cells[k]));
    assert forall|k: Text| #[trigger] cells.contains_key(k) && cells[k].value is Some implies (
    keys.contains(k) <==> (forall|d: Text| #[trigger]
        cells[k].coords.contains_key(d) ==> at.contains_key(d) && at[d]
            == cells[k].coords[d])) by {
        if forall|d: Text| #[trigger]
            cells[k].coords.contains_key(d) ==> at.contains_key(d) && at[d]
                == cells[k].coords[d] {
            assert forall|d: Text| #[trigger] cells[k].coords.dom().contains(
                d,
            ) implies at.dom().contains(d) && cells[k].coords[d] == at[d] by {
                assert(cells[k].coords.contains_key(d));
            }
            assert(cells[k].coords.submap_of(at));
        }
        if cells[k].coords.submap_of(at) {
            assert forall|d: Text| #[trigger] cells[k].coords.contains_key(
                d,
            ) implies at.contains_key(d) && at[d] == cells[k].coords[d] by {
                assert(cells[k].coords.dom().contains(d));
            }
        }
    }
    if all.len() == 0 {
        assert forall|k: Text| #[trigger]
            cells.contains_key(k) && cells[k].value is Some implies exists|d: Text| #[trigger]
            cells[k].coords.contains_key(d) && !(at.contains_key(d) && at[d]
                == cells[k].coords[d]) by {
            assert(!keys.contains(k));
        }
        Seq::empty()
    } else {
        let b = crate::reading::lemma_best_exists(all);
        let i = choose|i: int| is_best(all, i);
        assert(is_best(all, i));
        let key = keys[i];
        let c = all[i];
        assert(keys.contains(key));
        assert(cells[key] == c);
        assert forall|k: Text| #[trigger] cells.contains_key(k) && keys.contains(k) implies ({
            let other = cells[k];
            &&& c.coords.dom().len() >= other.coords.dom().len()
            &&& c.coords.dom().len() == other.coords.dom().len() ==> c.lamport >= other.lamport
            &&& c.coords.dom().len() == other.coords.dom().len() && c.lamport == other.lamport
                ==> k == key || text_lt(k, key)
        }) by {
            let j = choose|j: int| 0 <= j < keys.len() && keys[j] == k;
            assert(all[j] == cells[k]);
            assert(!outranks(all[j], all[i]));
            if j > i {
                assert(outranks(all[i], all[j]));
            } else if j < i {
                assert(text_lt(keys[j], keys[i]));
            }
        }
        key
    }
}

/// The more specific of two live cells that apply at a point wins, whatever their Lamport
/// times: the read never gives back the one with fewer dimensions.
pub proof fn law_specific_wins(
    m: MachineView,
    space: Text,
    at: CoordsView,
    narrow: Text,
    broad: Text,
)
    requires
        m.spaces.contains_key(space),
        m.spaces[space].cells.dom().finite(),
        m.spaces[space].cells.contains_key(narrow),
        m.spaces[space].cells.contains_key(broad),
        m.spaces[space].cells[narrow].value is Some,
        m.spaces[space].cells[narrow].coords.submap_of(at),
        m.spaces[space].cells[narrow].coords.dom().len()
            > m.spaces[space].cells[broad].coords.dom().len(),
    ensures
        resolved(m, space, at) is Some,
        resolved(m, space, at)->0.coords.dom().len()
            >= m.spaces[space].cells[narrow].coords.dom().len(),
        resolved(m, space, at) != Some(m.spaces[space].cells[broad]),
{
    let cells = m.spaces[space].cells;
    let key = law_point_read(m, space, at);
    assert(cells.contains_key(narrow) && cells[narrow].value is Some);
    assert forall|d: Text| #[trigger] cells[narrow].coords.contains_key(d) implies at.contains_key(
        d,
    ) && at[d] == cells[narrow].coords[d] by {
        assert(cells[narrow].coords.submap_of(at));
        assert(cells[narrow].coords.dom().contains(d));
        assert(at.dom().contains(d));
    }
}

/// Of two live cells with addresses of as many dimensions that apply at a point, the read
/// never gives back the one with the lesser Lamport time.
pub proof fn law_latest_wins(m: MachineView, space: Text, at: CoordsView, newer: Text, older: Text)
    requires
        m.spaces.contains_key(space),
        m.spaces[space].cells.dom().finite(),
        m.spaces[space].cells.contains_key(newer),
        m.spaces[space].cells.contains_key(older),
        m.spaces[space].cells[newer].value is Some,
        m.spaces[space].cells[newer].coords.submap_of(at),
        m.spaces[space].cells[newer].coords.dom().len()
            == m.spaces[space].cells[older].coords.dom().len(),
        m.spaces[space].cells[newer].lamport > m.spaces[space].cells[older].lamport,
    ensures
        resolved(m, space, at) != Some(m.spaces[space].cells[older]),
{
    let cells = m.spaces[space].cells;
    let key = law_point_read(m, space, at);
    assert(cells.contains_key(newer) && cells[newer].value is Some);
    assert forall|d: Text| #[trigger] cells[newer].coords.contains_key(d) implies at.contains_key(
        d,
    ) && at[d] == cells[newer].coords[d] by {
        assert(cells[newer].coords.submap_of(at));
        assert(cells[newer].coords.dom().contains(d));
        assert(at.dom().contains(d));
    }
}

/// A request to read a point or a slice is answered by what the machine reads there, for
/// every writer; the answer to a point read names the key of the cell.
pub proof fn law_reads_answered(m: MachineView, writer: Text, space: Text, at: CoordsView)
    ensures
        ({
            let h = outcome(m, writer, RequestView::Get { space, coords: at });
            &&& h.op is None
            &&& h.response matches ResponseView::Cell { cell, key } && cell == resolved(
                m,
                space,
                at,
            ) && (cell matches Some(c) ==> key == Some(canonical_key(c.coords))) && (cell is None
                ==> key is None)
        }),
        ({
            let h = outcome(m, writer, RequestView::Slice { space, fixed: at });
            &&& h.op is None
            &&& m.spaces.contains_key(space) ==> h.response == (ResponseView::Cells {
                cells: sliced(m, space, at),
            })
            &&& !m.spaces.contains_key(space) ==> h.response == (ResponseView::Error {
                error: "no such space: "@ + space,
            })
        }),
{
}

/// The description of a space holds its name; its rules, each once, in the order of their
/// ids; its dimensions, each once, in the order of their names, with name, kind and
/// coordinates; and the number of its live cells, whose keys come back.
pub proof fn law_described(m: MachineView, writer: Text, space: Text) -> (r: (
    Seq<Text>,
    Seq<Text>,
    Seq<Text>,
))
    requires
        m.spaces.contains_key(space),
        m.spaces[space].rules.dom().finite(),
        m.spaces[space].dimensions.dom().finite(),
        m.spaces[space].cells.dom().finite(),
    ensures
        ({
            let s = m.spaces[space];
            let h = outcome(m, writer, RequestView::Describe { space });
            let (ids, names, live) = r;
            &&& h.op is None
            &&& h.response matches ResponseView::Space { info } && {
                &&& info.name == s.name
                &&& info.rules.len() == ids.len()
                &&& forall|i: int| 0 <= i < ids.len() ==> #[trigger] info.rules[i]
                    == s.rules[ids[i]]
                &&& info.dimensions.len() == names.len()
                &&& forall|i: int|
                    0 <= i < names.len() ==> (#[trigger] info.dimensions[i]).name
                        == s.dimensions[names[i]].name && info.dimensions[i].kind
                        == s.dimensions[names[i]].kind && info.dimensions[i].coords
                        == s.dimensions[names[i]].coords
                &&& info.cells == live.len()
            }
            &&& forall|i: int, j: int|
                0 <= i < j < ids.len() ==> text_lt(#[trigger] ids[i], #[trigger] ids[j])
            &&& forall|id: Text| #[trigger] ids.contains(id) <==> s.rules.contains_key(id)
            &&& forall|i: int, j: int|
                0 <= i < j < names.len() ==> text_lt(#[trigger] names[i], #[trigger] names[j])
            &&& forall|d: Text| #[trigger] names.contains(d) <==> s.dimensions.contains_key(d)
            &&& live.no_duplicates()
            &&& forall|k: Text| #[trigger]
                live.contains(k) <==> s.cells.contains_key(k) && s.cells[k].value is Some
        }),
{
    let s = m.spaces[space];
    let ids = key_order(s.rules.dom());
    let names = key_order(s.dimensions.dom());
    lemma_key_order_lists(s.rules.dom());
    lemma_key_order_lists(s.dimensions.dom());
    let live = lemma_kept_keys(s.cells, |c: CellView| c.value is Some);
    lemma_ascending_distinct(live);
    assert forall|id: Text| #[trigger] ids.contains(id) <==> s.rules.contains_key(id) by {
        assert(s.rules.dom().contains(id) <==> ids.contains(id));
    }
    assert forall|d: Text| #[trigger] names.contains(d) <==> s.dimensions.contains_key(d) by {
        assert(s.dimensions.dom().contains(d) <==> names.contains(d));
    }
    (ids, names, live)
}

proof fn lemma_ascending_distinct(keys: Seq<Text>)
    requires
        forall|i: int, j: int|
            0 <= i < j < keys.len() ==> text_lt(#[trigger] keys[i], #[trigger] keys[j]),
    ensures
        keys.no_duplicates(),
{
    assert forall|i: int, j: int|
        0 <= i < keys.len() && 0 <= j < keys.len() && i != j implies keys[i] != keys[j] by {
        lemma_text_lt_irreflexive(keys[i]);
        if i < j {
            assert(text_lt(keys[i], keys[j]));
        } else {
            assert(text_lt(keys[j], keys[i]));
        }
    }
}

/// The rules of a space are listed by request exactly as its description holds them.
pub proof fn law_rules_listed(m: MachineView, writer: Text, space: Text)
    requires
        m.spaces.contains_key(space),
    ensures
        ({
            let described = outcome(m, writer, RequestView::Describe { space });
            let listed = outcome(m, writer, RequestView::Rules { space });
            &&& listed.op is None
            &&& described.response matches ResponseView::Space { info } && listed.response == (
            ResponseView::Rules { rules: info.rules })
        }),
{
}

/// A rule that is defined is in the description of the space, and in the list of its
/// rules, whatever rules there were.
pub proof fn law_rule_shown(m: MachineView, writer: Text, space: Text, rule: RuleView)
    requires
        crate::reading::sound(m),
        m.clock < u64::MAX,
        m.spaces.contains_key(space),
        m.spaces[space].rules.dom().finite(),
        m.spaces[space].dimensions.dom().finite(),
        rule.id.len() > 0,
    ensures
        ({
            let h = outcome(m, writer, RequestView::DefineRule { space, rule });
            let n = machine_after(m, h.op);
            let described = outcome(n, writer, RequestView::Describe { space });
            let listed = outcome(n, writer, RequestView::Rules { space });
            &&& h.response == ResponseView::Done
            &&& described.response matches ResponseView::Space { info } && info.rules.contains(rule)
            &&& listed.response matches ResponseView::Rules { rules } && rules.contains(rule)
        }),
{
    let h = outcome(m, writer, RequestView::DefineRule { space, rule });
    let n = machine_after(m, h.op);
    crate::reading::law_rule_defined(m, writer, space, rule);
    let s = n.spaces[space];
    let ids = key_order(s.rules.dom());
    assert(s.rules.dom() =~= m.spaces[space].rules.dom().insert(rule.id));
    lemma_key_order_lists(s.rules.dom());
    assert(s.rules.dom().contains(rule.id));
    assert(ids.contains(rule.id));
    let i = choose|i: int| 0 <= i < ids.len() && ids[i] == rule.id;
    assert(values_in_order(s.rules)[i] == rule);
}

/// The names of all spaces are listed, each once, in order.
pub proof fn law_spaces_listed(m: MachineView, writer: Text)
    requires
        m.spaces.dom().finite(),
    ensures
        ({
            let h = outcome(m, writer, RequestView::Spaces);
            &&& h.op is None
            &&& h.response matches ResponseView::Spaces { spaces } && {
                &&& forall|i: int, j: int|
                    0 <= i < j < spaces.len() ==> text_lt(
                        #[trigger] spaces[i],
                        #[trigger] spaces[j],
                    )
                &&& forall|name: Text| #[trigger]
                    spaces.contains(name) <==> m.spaces.contains_key(name)
            }
        }),
{
    let spaces = key_order(m.spaces.dom());
    lemma_key_order_lists(m.spaces.dom());
    assert forall|name: Text| #[trigger] spaces.contains(name) <==> m.spaces.contains_key(name) by {
        assert(m.spaces.dom().contains(name) <==> spaces.contains(name));
    }
}

/// Text sorts by its first different character, and a text before every longer one that
/// begins with it.
pub proof fn law_text_order(a: Text, b: Text) -> (n: int)
    ensures
        0 <= n <= a.len(),
        n <= b.len(),
        a.take(n) == b.take(n),
        n == a.len() || n == b.len() || a[n] != b[n],
        text_lt(a, b) <==> n < b.len() && (n == a.len() || (a[n] as int) < (b[n] as int)),
    decreases a.len(),
{
    if a.len() == 0 || b.len() == 0 || a[0] != b[0] {
        assert(a.take(0) =~= b.take(0));
        0
    } else {
        let n = law_text_order(a.drop_first(), b.drop_first());
        assert(a.take(n + 1) =~= seq![a[0]] + a.drop_first().take(n));
        assert(b.take(n + 1) =~= seq![b[0]] + b.drop_first().take(n));
        n + 1
    }
}

} // verus!
