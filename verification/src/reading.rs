//! What reads give back of writes, and what every machine keeps.

use vstd::prelude::*;

use crate::convergence::{lemma_known_after, origin_of, touches};
use crate::origin::{
    lemma_listed, lemma_listing, lemma_listing_lists, lemma_stands_irreflexive, lists_in_order,
    stamp_beats, stands_before, OriginView,
};
use crate::proto::{machine_after, next_stamped, objection, outcome, RequestView, ResponseView};
use crate::sorted_map::{key_order, lemma_key_order_lists, values_in_order};
use crate::space::{
    applied, applying, bare_dimension, canonical_key, cell_stamp, cell_write, cells_of, compatible,
    dimension_after, is_best, keys_of, kinds_of, known_dimension, known_space, new_space, op_stamp,
    outranks, resolved, sliced, space_after, space_of, with_coordinate, with_kind, CellView,
    CoordsView, DerivationView, DimensionView, MachineView, OpView, RuleView, SpaceView,
    StampedView, ValueView, RAW, REPRESENTATION,
};
use crate::text::Text;

verus! {

/// A cell in its place: under its own canonical key, stamped no later than the
/// clock, with every coordinate of its address known to the space.
pub open spec fn cell_in_place(s: SpaceView, clock: u64, key: Text) -> bool {
    let c = s.cells[key];
    &&& c.coords.dom().finite()
    &&& canonical_key(c.coords) == key
    &&& c.lamport <= clock
    &&& forall|d: Text| #[trigger]
        c.coords.contains_key(d) ==> s.dimensions.contains_key(d)
            && s.dimensions[d].coords.contains(c.coords[d])
}

/// What comes from an op comes from one that was seen.
pub open spec fn origin_seen(from: OriginView, clock: u64) -> bool {
    from matches OriginView::Op { stamp } ==> stamp.lamport <= clock
}

/// A dimension in order: under its own name, its coordinates listed by where they come
/// from. Nothing but the raw plane is there from birth.
pub open spec fn dimension_sound(x: DimensionView, d: Text, clock: u64) -> bool {
    &&& x.name == d
    &&& lists_in_order(x.coords, x.origins)
    &&& origin_seen(x.kind_from, clock)
    &&& forall|c: Text| #[trigger]
        x.origins.contains_key(c) ==> origin_seen(x.origins[c], clock) && (x.origins[c] is Birth
            ==> d == REPRESENTATION@ && c == RAW@)
}

/// The representation axis is there, with the raw plane in front.
pub open spec fn raw_first(s: SpaceView) -> bool {
    &&& s.dimensions.contains_key(REPRESENTATION@)
    &&& s.dimensions[REPRESENTATION@].origins.contains_key(RAW@)
    &&& s.dimensions[REPRESENTATION@].origins[RAW@] is Birth
    &&& s.dimensions[REPRESENTATION@].coords.len() > 0
    &&& s.dimensions[REPRESENTATION@].coords[0] == RAW@
}

/// A space in order. It carries the representation axis with the raw plane in front;
/// every dimension is in order, and none both stands and waits; every rule stands under
/// its own id with its stamp; every cell is in its place; provenance stands only beside
/// a live cell.
pub open spec fn space_sound(s: SpaceView, clock: u64) -> bool {
    &&& s.cells.dom().finite()
    &&& raw_first(s)
    &&& forall|d: Text| #[trigger]
        s.dimensions.contains_key(d) ==> dimension_sound(s.dimensions[d], d, clock)
    &&& forall|d: Text| #[trigger]
        s.waiting.contains_key(d) ==> dimension_sound(s.waiting[d], d, clock)
            && !s.dimensions.contains_key(d)
    &&& forall|id: Text| #[trigger] s.rules.contains_key(id) ==> s.rules[id].id == id
    &&& forall|id: Text| #[trigger]
        s.rule_stamps.contains_key(id) ==> s.rule_stamps[id].lamport <= clock
    &&& s.rules.dom() == s.rule_stamps.dom()
    &&& forall|k: Text| #[trigger] s.cells.contains_key(k) ==> cell_in_place(s, clock, k)
    &&& forall|k: Text| #[trigger]
        s.derived.contains_key(k) ==> s.cells.contains_key(k) && s.cells[k].value is Some
}

/// A machine in order: every space stands or waits under its own name, never both, and
/// is in order.
pub open spec fn sound(m: MachineView) -> bool {
    &&& forall|name: Text| #[trigger]
        m.spaces.contains_key(name) ==> m.spaces[name].name == name && space_sound(
            m.spaces[name],
            m.clock,
        )
    &&& forall|name: Text| #[trigger]
        m.waiting.contains_key(name) ==> m.waiting[name].name == name && space_sound(
            m.waiting[name],
            m.clock,
        ) && !m.spaces.contains_key(name)
}

/// An op whose address is finite, as every address is that can be written down.
pub open spec fn finite_op(op: OpView) -> bool {
    match op {
        OpView::SetCell { coords, .. } => coords.dom().finite(),
        OpView::ClearCell { coords, .. } => coords.dom().finite(),
        OpView::SetDerived { coords, .. } => coords.dom().finite(),
        _ => true,
    }
}

/// A machine without spaces is in order.
pub proof fn law_sound_at_birth(m: MachineView)
    requires
        m.spaces == Map::<Text, SpaceView>::empty(),
        m.waiting == Map::<Text, SpaceView>::empty(),
    ensures
        sound(m),
{
}

proof fn lemma_later(x: DimensionView, d: Text, clock: u64, later: u64)
    requires
        dimension_sound(x, d, clock),
        clock <= later,
    ensures
        dimension_sound(x, d, later),
{
}

/// What a dimension keeps: no coordinate goes, and what was there from birth stays so.
spec fn grows(x: DimensionView, y: DimensionView) -> bool {
    forall|c: Text| #[trigger]
        x.origins.contains_key(c) ==> y.origins.contains_key(c) && (x.origins[c] is Birth
            ==> y.origins[c] is Birth)
}

proof fn lemma_dimension_kept(
    x: DimensionView,
    d: Text,
    declared: bool,
    kind: Option<Text>,
    key: Option<Text>,
    from: OriginView,
    clock: u64,
    later: u64,
)
    requires
        dimension_sound(x, d, clock),
        clock <= later,
        origin_seen(from, later),
        from is Op,
    ensures
        ({
            let y = dimension_after(x, declared, kind, key, from);
            &&& dimension_sound(y, d, later)
            &&& grows(x, y)
            &&& key matches Some(k) ==> y.origins.contains_key(k)
        }),
{
    lemma_listed(x.coords, x.origins);
    if let Some(k) = key {
        let origins = x.origins.insert(k, from);
        assert(origins.dom() =~= x.origins.dom().insert(k));
        lemma_listing_lists(origins);
    }
}

pub(crate) proof fn lemma_listed_iff(x: DimensionView, d: Text, clock: u64, c: Text)
    requires
        dimension_sound(x, d, clock),
    ensures
        x.coords.contains(c) <==> x.origins.contains_key(c),
{
}

proof fn lemma_raw_stays_first(x: DimensionView, clock: u64)
    requires
        dimension_sound(x, REPRESENTATION@, clock),
        x.origins.contains_key(RAW@),
        x.origins[RAW@] is Birth,
    ensures
        x.coords.len() > 0,
        x.coords[0] == RAW@,
{
    assert(x.coords.contains(RAW@));
    let i = choose|i: int| 0 <= i < x.coords.len() && x.coords[i] == RAW@;
    if i > 0 {
        assert(stands_before(x.origins, x.coords[0], x.coords[i]));
        assert(x.coords.contains(x.coords[0]));
        assert(x.origins.contains_key(x.coords[0]));
        lemma_stands_irreflexive(x.origins, RAW@);
    }
}

pub(crate) proof fn lemma_bare_sound(d: Text, clock: u64)
    ensures
        dimension_sound(bare_dimension(d), d, clock),
{
}

/// What an op leaves of the dimensions is in order, and nothing that was known goes.
proof fn lemma_dimensions_kept(s: SpaceView, clock: u64, op: StampedView, later: u64)
    requires
        space_sound(s, clock),
        clock <= later,
        op.lamport <= later,
    ensures
        ({
            let t = space_after(s, op);
            &&& raw_first(t)
            &&& forall|d: Text| #[trigger]
                t.dimensions.contains_key(d) ==> dimension_sound(t.dimensions[d], d, later)
            &&& forall|d: Text| #[trigger]
                t.waiting.contains_key(d) ==> dimension_sound(t.waiting[d], d, later)
                    && !t.dimensions.contains_key(d)
            &&& forall|d: Text| #[trigger]
                s.dimensions.contains_key(d) ==> t.dimensions.contains_key(d) && grows(
                    s.dimensions[d],
                    t.dimensions[d],
                )
            &&& forall|d: Text| #[trigger]
                kinds_of(op).contains_key(d) && keys_of(op).contains_key(d)
                    ==> t.dimensions.contains_key(d) && t.dimensions[d].origins.contains_key(
                    keys_of(op)[d],
                )
        }),
{
    let t = space_after(s, op);
    assert forall|d: Text| #[trigger] t.dimensions.contains_key(d) implies dimension_sound(
        t.dimensions[d],
        d,
        later,
    ) by {
        lemma_dimension_step(s, clock, op, later, d);
    }
    assert forall|d: Text| #[trigger] t.waiting.contains_key(d) implies dimension_sound(
        t.waiting[d],
        d,
        later,
    ) && !t.dimensions.contains_key(d) by {
        lemma_dimension_step(s, clock, op, later, d);
    }
    assert forall|d: Text| #[trigger] s.dimensions.contains_key(d) implies t.dimensions.contains_key(
        d,
    ) && grows(s.dimensions[d], t.dimensions[d]) by {
        lemma_dimension_step(s, clock, op, later, d);
    }
    assert forall|d: Text| #[trigger]
        kinds_of(op).contains_key(d) && keys_of(op).contains_key(d) implies t.dimensions.contains_key(
        d,
    ) && t.dimensions[d].origins.contains_key(keys_of(op)[d]) by {
        lemma_dimension_step(s, clock, op, later, d);
    }
    let x = s.dimensions[REPRESENTATION@];
    let y = t.dimensions[REPRESENTATION@];
    assert(t.dimensions.contains_key(REPRESENTATION@) && grows(x, y));
    assert(x.origins.contains_key(RAW@));
    lemma_raw_stays_first(y, later);
}

proof fn lemma_dimension_step(s: SpaceView, clock: u64, op: StampedView, later: u64, d: Text)
    requires
        space_sound(s, clock),
        clock <= later,
        op.lamport <= later,
    ensures
        ({
            let t = space_after(s, op);
            &&& t.dimensions.contains_key(d) ==> dimension_sound(t.dimensions[d], d, later)
            &&& t.waiting.contains_key(d) ==> dimension_sound(t.waiting[d], d, later)
                && !t.dimensions.contains_key(d)
            &&& s.dimensions.contains_key(d) ==> t.dimensions.contains_key(d) && grows(
                s.dimensions[d],
                t.dimensions[d],
            )
            &&& kinds_of(op).contains_key(d) ==> t.dimensions.contains_key(d)
            &&& kinds_of(op).contains_key(d) && keys_of(op).contains_key(d)
                ==> t.dimensions[d].origins.contains_key(keys_of(op)[d])
        }),
{
    lemma_known_after(s, op, d);
    let x = known_dimension(s, d);
    lemma_bare_sound(d, clock);
    if touches(op, d) {
        lemma_dimension_kept(
            x,
            d,
            s.dimensions.contains_key(d),
            kinds_of(op).get(d),
            keys_of(op).get(d),
            origin_of(op),
            clock,
            later,
        );
    } else if s.dimensions.contains_key(d) || s.waiting.contains_key(d) {
        lemma_later(x, d, clock, later);
        if s.dimensions.contains_key(d) {
            assert(space_after(s, op).dimensions.get(d) == Some(s.dimensions[d]));
        } else {
            assert(space_after(s, op).waiting.get(d) == Some(s.waiting[d]));
        }
    }
}

proof fn lemma_space_sound_after(s: SpaceView, clock: u64, op: StampedView, later: u64)
    requires
        space_sound(s, clock),
        finite_op(op.inner),
        clock <= later,
        op.lamport <= later,
    ensures
        space_sound(space_after(s, op), later),
{
    let t = space_after(s, op);
    lemma_dimensions_kept(s, clock, op, later);
    assert forall|k: Text| #[trigger] t.cells.contains_key(k) implies cell_in_place(
        t,
        later,
        k,
    ) by {
        let c = t.cells[k];
        if s.cells.contains_key(k) && s.cells[k] == c {
            assert(cell_in_place(s, clock, k));
            assert forall|d: Text| #[trigger] c.coords.contains_key(d) implies t.dimensions.contains_key(
                d,
            ) && t.dimensions[d].coords.contains(c.coords[d]) by {
                assert(s.dimensions.contains_key(d));
                lemma_listed_iff(s.dimensions[d], d, clock, c.coords[d]);
                lemma_listed_iff(t.dimensions[d], d, later, c.coords[d]);
            }
        } else {
            let w = cell_write(op)->0;
            assert(c == w.cell);
            assert forall|d: Text| #[trigger] c.coords.contains_key(d) implies t.dimensions.contains_key(
                d,
            ) && t.dimensions[d].coords.contains(c.coords[d]) by {
                assert(kinds_of(op).contains_key(d) && keys_of(op).contains_key(d));
                lemma_listed_iff(t.dimensions[d], d, later, c.coords[d]);
            }
        }
    }
    assert(t.rules.dom() =~= t.rule_stamps.dom());
}

proof fn lemma_space_sound_later(s: SpaceView, clock: u64, later: u64)
    requires
        space_sound(s, clock),
        clock <= later,
    ensures
        space_sound(s, later),
{
    assert forall|k: Text| #[trigger] s.cells.contains_key(k) implies cell_in_place(s, later, k) by {
        assert(cell_in_place(s, clock, k));
    }
}

proof fn lemma_new_space_sound(name: Text, clock: u64)
    ensures
        space_sound(new_space(name), clock),
{
    let s = new_space(name);
    let x = s.dimensions[REPRESENTATION@];
    assert(x.coords[0] == RAW@);
    assert(x.coords.contains(RAW@));
    assert(s.rules.dom() =~= s.rule_stamps.dom());
}

/// Every op keeps a machine in order: in particular the raw plane stays in front on the
/// representation axis, and no stamp is ahead of the clock.
pub proof fn law_sound_kept(m: MachineView, op: StampedView)
    requires
        sound(m),
        finite_op(op.inner),
    ensures
        sound(applied(m, op)),
{
    let n = applied(m, op);
    let name = space_of(op.inner);
    lemma_new_space_sound(name, m.clock);
    lemma_space_sound_after(known_space(m, name), m.clock, op, n.clock);
    assert forall|x: Text| #[trigger] n.spaces.contains_key(x) implies n.spaces[x].name == x
        && space_sound(n.spaces[x], n.clock) by {
        if x != name {
            assert(m.spaces.contains_key(x));
            lemma_space_sound_later(m.spaces[x], m.clock, n.clock);
        }
    }
    assert forall|x: Text| #[trigger] n.waiting.contains_key(x) implies n.waiting[x].name == x
        && space_sound(n.waiting[x], n.clock) && !n.spaces.contains_key(x) by {
        if x != name {
            assert(m.waiting.contains_key(x));
            lemma_space_sound_later(m.waiting[x], m.clock, n.clock);
        }
    }
}

/// A request whose address is finite, as every address is that can be written down.
pub open spec fn finite_request(req: RequestView) -> bool {
    match req {
        RequestView::SetCell { coords, .. } => coords.dom().finite(),
        RequestView::ClearCell { coords, .. } => coords.dom().finite(),
        RequestView::SetDerived { coords, .. } => coords.dom().finite(),
        _ => true,
    }
}

/// Every request keeps a machine in order.
pub proof fn law_sound_served(m: MachineView, writer: Text, req: RequestView)
    requires
        sound(m),
        finite_request(req),
    ensures
        sound(machine_after(m, outcome(m, writer, req).op)),
{
    if let Some(op) = outcome(m, writer, req).op {
        law_sound_kept(m, op);
    }
}

proof fn lemma_cells_of(m: MachineView, space: Text, c: CellView)
    requires
        m.spaces.contains_key(space),
        m.spaces[space].cells.dom().finite(),
    ensures
        cells_of(m, space).contains(c) <==> exists|k: Text| #[trigger]
            m.spaces[space].cells.contains_key(k) && m.spaces[space].cells[k] == c,
{
    let cells = m.spaces[space].cells;
    let order = key_order(cells.dom());
    lemma_key_order_lists(cells.dom());
    let all = values_in_order(cells);
    if all.contains(c) {
        let i = choose|i: int| 0 <= i < all.len() && all[i] == c;
        assert(order.contains(order[i]));
        assert(cells.contains_key(order[i]) && cells[order[i]] == c);
    }
    if exists|k: Text| #[trigger] cells.contains_key(k) && cells[k] == c {
        let k = choose|k: Text| #[trigger] cells.contains_key(k) && cells[k] == c;
        assert(order.contains(k));
        let i = choose|i: int| 0 <= i < order.len() && order[i] == k;
        assert(all[i] == c);
    }
}

proof fn lemma_filter_members<A>(s: Seq<A>, keep: spec_fn(A) -> bool, x: A)
    ensures
        s.filter(keep).contains(x) <==> s.contains(x) && keep(x),
{
    if s.filter(keep).contains(x) {
        let i = choose|i: int| 0 <= i < s.filter(keep).len() && s.filter(keep)[i] == x;
        s.lemma_filter_pred(keep, i);
        s.lemma_filter_contains_rev(keep, x);
    }
    if s.contains(x) && keep(x) {
        let i = choose|i: int| 0 <= i < s.len() && s[i] == x;
        s.lemma_filter_contains(keep, i);
    }
}

/// A slice holds exactly the live cells that are compatible with what it fixes: a
/// cell that leaves a fixed dimension open is in it.
pub proof fn law_slice_members(m: MachineView, space: Text, fixed: CoordsView, c: CellView)
    requires
        m.spaces.contains_key(space),
        m.spaces[space].cells.dom().finite(),
    ensures
        sliced(m, space, fixed).contains(c) <==> c.value is Some && compatible(c.coords, fixed)
            && exists|k: Text| #[trigger]
            m.spaces[space].cells.contains_key(k) && m.spaces[space].cells[k] == c,
{
    lemma_cells_of(m, space, c);
    lemma_filter_members(
        cells_of(m, space),
        |c: CellView| c.value is Some && compatible(c.coords, fixed),
        c,
    );
}

proof fn lemma_filter_twice<A>(s: Seq<A>, p: spec_fn(A) -> bool, q: spec_fn(A) -> bool)
    requires
        forall|x: A| #[trigger] q(x) ==> p(x),
    ensures
        s.filter(p).filter(q) == s.filter(q),
    decreases s.len(),
{
    reveal(Seq::filter);
    if s.len() > 0 {
        lemma_filter_twice(s.drop_last(), p, q);
        if p(s.last()) {
            assert(s.filter(p).drop_last() =~= s.drop_last().filter(p));
        }
    }
}

/// Fixing more only takes cells out of a slice: the narrower slice is what the wider
/// one holds that is compatible with it, in the same order.
pub proof fn law_slice_narrows(m: MachineView, space: Text, fixed: CoordsView, more: CoordsView)
    requires
        fixed.submap_of(more),
    ensures
        sliced(m, space, more) == sliced(m, space, fixed).filter(
            |c: CellView| c.value is Some && compatible(c.coords, more),
        ),
{
    let wide = |c: CellView| c.value is Some && compatible(c.coords, fixed);
    let narrow = |c: CellView| c.value is Some && compatible(c.coords, more);
    assert forall|c: CellView| #[trigger] narrow(c) implies wide(c) by {
        assert forall|d: Text| #[trigger]
            fixed.contains_key(d) && c.coords.contains_key(d) implies c.coords[d] == fixed[d] by {
            assert(more.contains_key(d));
        }
    }
    lemma_filter_twice(cells_of(m, space), wide, narrow);
}

proof fn lemma_applying(m: MachineView, space: Text, at: CoordsView, c: CellView)
    requires
        m.spaces.contains_key(space),
        m.spaces[space].cells.dom().finite(),
    ensures
        applying(m, space, at).contains(c) <==> c.value is Some && c.coords.submap_of(at)
            && exists|k: Text| #[trigger]
            m.spaces[space].cells.contains_key(k) && m.spaces[space].cells[k] == c,
{
    lemma_cells_of(m, space, c);
    lemma_filter_members(
        cells_of(m, space),
        |c: CellView| c.value is Some && c.coords.submap_of(at),
        c,
    );
}

pub(crate) proof fn lemma_best_exists(cells: Seq<CellView>) -> (best: int)
    requires
        cells.len() > 0,
    ensures
        is_best(cells, best),
    decreases cells.len(),
{
    if cells.len() == 1 {
        0
    } else {
        let rest = cells.drop_last();
        let b = lemma_best_exists(rest);
        let last = cells.last();
        assert(cells[cells.len() - 1] == last);
        assert(forall|j: int| 0 <= j < rest.len() ==> #[trigger] rest[j] == cells[j]);
        if outranks(rest[b], last) {
            assert forall|j: int| 0 <= j < cells.len() implies !outranks(
                #[trigger] cells[j],
                cells[b],
            ) by {
                if j < rest.len() {
                    assert(!outranks(rest[j], rest[b]));
                }
            }
            assert forall|j: int| b < j < cells.len() implies outranks(
                cells[b],
                #[trigger] cells[j],
            ) by {
                if j < rest.len() {
                    assert(outranks(rest[b], rest[j]));
                }
            }
            b
        } else {
            let n = cells.len() - 1;
            assert forall|j: int| 0 <= j < cells.len() implies !outranks(
                #[trigger] cells[j],
                cells[n],
            ) by {
                if j < rest.len() {
                    assert(!outranks(rest[j], rest[b]));
                }
            }
            n
        }
    }
}

/// What a point read gives back: a live cell whose address is a part of the point,
/// and none that applies there takes precedence over it. Nothing comes back only
/// where nothing applies.
pub proof fn law_most_specific(m: MachineView, space: Text, at: CoordsView, other: CellView)
    ensures
        resolved(m, space, at) is None <==> applying(m, space, at).len() == 0,
        resolved(m, space, at) matches Some(c) ==> applying(m, space, at).contains(c) && c.value
            is Some && c.coords.submap_of(at),
        applying(m, space, at).contains(other) ==> resolved(m, space, at) is Some && !outranks(
            other,
            resolved(m, space, at)->0,
        ),
{
    let cells = applying(m, space, at);
    let keep = |c: CellView| c.value is Some && c.coords.submap_of(at);
    if cells.len() > 0 {
        let b = lemma_best_exists(cells);
        let i = choose|i: int| is_best(cells, i);
        assert(is_best(cells, i));
        lemma_filter_members(cells_of(m, space), keep, cells[i]);
        assert(cells.contains(cells[i]));
        if cells.contains(other) {
            let j = choose|j: int| 0 <= j < cells.len() && cells[j] == other;
            assert(!outranks(cells[j], cells[i]));
        }
    }
}

/// A cell that applies at a point applies at every point that fixes more: an address
/// spans the whole subspace of the dimensions it leaves open.
pub proof fn law_spanning(
    m: MachineView,
    space: Text,
    at: CoordsView,
    further: CoordsView,
    c: CellView,
)
    requires
        at.submap_of(further),
        applying(m, space, at).contains(c),
    ensures
        applying(m, space, further).contains(c),
{
    lemma_filter_members(
        cells_of(m, space),
        |c: CellView| c.value is Some && c.coords.submap_of(at),
        c,
    );
    assert(c.coords.submap_of(further)) by {
        assert forall|d: Text| #[trigger] c.coords.dom().contains(d) implies further.dom().contains(
            d,
        ) && c.coords[d] == further[d] by {
            assert(at.dom().contains(d));
        }
    }
    lemma_filter_members(
        cells_of(m, space),
        |c: CellView| c.value is Some && c.coords.submap_of(further),
        c,
    );
}

/// What a point read gives back is in the slice at that point.
pub proof fn law_read_in_slice(m: MachineView, space: Text, at: CoordsView)
    ensures
        resolved(m, space, at) matches Some(c) ==> sliced(m, space, at).contains(c),
{
    if let Some(c) = resolved(m, space, at) {
        law_most_specific(m, space, at, c);
        lemma_filter_members(
            cells_of(m, space),
            |c: CellView| c.value is Some && c.coords.submap_of(at),
            c,
        );
        assert(compatible(c.coords, at)) by {
            assert forall|d: Text| #[trigger]
                at.contains_key(d) && c.coords.contains_key(d) implies c.coords[d] == at[d] by {
                assert(c.coords.dom().contains(d));
            }
        }
        lemma_filter_members(
            cells_of(m, space),
            |c: CellView| c.value is Some && compatible(c.coords, at),
            c,
        );
    }
}

proof fn lemma_part_of_same_size(a: CoordsView, b: CoordsView)
    requires
        a.dom().finite(),
        b.dom().finite(),
        a.submap_of(b),
    ensures
        a.dom().len() <= b.dom().len(),
        a.dom().len() == b.dom().len() ==> a == b,
{
    vstd::set_lib::lemma_len_subset(a.dom(), b.dom());
    if a.dom().len() == b.dom().len() {
        vstd::set_lib::lemma_subset_equality(a.dom(), b.dom());
        assert(a =~= b);
    }
}

/// The cell that a local write puts down.
pub open spec fn local_cell(
    m: MachineView,
    writer: Text,
    coords: CoordsView,
    value: Option<ValueView>,
) -> CellView {
    CellView { coords, value, lamport: (m.clock + 1) as u64, writer }
}

proof fn lemma_local_write(m: MachineView, writer: Text, op: OpView)
    requires
        sound(m),
        m.clock < u64::MAX,
        finite_op(op),
        m.spaces.contains_key(space_of(op)),
        cell_write(next_stamped(m, writer, op)) is Some,
    ensures
        ({
            let stamped = next_stamped(m, writer, op);
            let w = cell_write(stamped)->0;
            let k = canonical_key(w.cell.coords);
            let s = applied(m, stamped).spaces[space_of(op)];
            &&& sound(applied(m, stamped))
            &&& applied(m, stamped).spaces.contains_key(space_of(op))
            &&& s.cells == m.spaces[space_of(op)].cells.insert(k, w.cell)
            &&& s.derived == (match w.derivation {
                Some(d) => m.spaces[space_of(op)].derived.insert(k, d),
                None => m.spaces[space_of(op)].derived.remove(k),
            })
        }),
{
    let stamped = next_stamped(m, writer, op);
    let w = cell_write(stamped)->0;
    let k = canonical_key(w.cell.coords);
    let s = m.spaces[space_of(op)];
    law_sound_kept(m, stamped);
    if s.cells.contains_key(k) {
        assert(cell_in_place(s, m.clock, k));
    }
    assert(cell_stamp(w.cell) == op_stamp(stamped));
}

/// A read gives back what a write wrote: once a value was set at an address, the
/// read at that address gives it back, with the stamp of the write.
pub proof fn law_write_then_read(
    m: MachineView,
    writer: Text,
    space: Text,
    coords: CoordsView,
    value: ValueView,
)
    requires
        sound(m),
        m.clock < u64::MAX,
        m.spaces.contains_key(space),
        coords.dom().finite(),
        coords != Map::<Text, Text>::empty(),
    ensures
        ({
            let h = outcome(m, writer, RequestView::SetCell { space, coords, value });
            &&& h.response == ResponseView::Done
            &&& resolved(machine_after(m, h.op), space, coords) == Some(
                local_cell(m, writer, coords, Some(value)),
            )
        }),
{
    law_write_reaches(m, writer, space, coords, value, coords);
    let h = outcome(m, writer, RequestView::SetCell { space, coords, value });
    let n = machine_after(m, h.op);
    let cell = local_cell(m, writer, coords, Some(value));
    let op = OpView::SetCell { space, coords, value };
    lemma_local_write(m, writer, op);
    let c = resolved(n, space, coords)->0;
    law_most_specific(n, space, coords, c);
    lemma_applying(n, space, coords, c);
    let s = n.spaces[space];
    let k = choose|k: Text| #[trigger] s.cells.contains_key(k) && s.cells[k] == c;
    assert(cell_in_place(s, n.clock, k));
    lemma_part_of_same_size(c.coords, coords);
    if c != cell {
        assert(k != canonical_key(coords));
        assert(c.coords != coords);
        assert(outranks(cell, c));
    }
}

/// A value that was set at an address is there for every point that the address
/// spans: what the read at such a point gives back is outranked by nothing, the new
/// cell included.
pub proof fn law_write_reaches(
    m: MachineView,
    writer: Text,
    space: Text,
    coords: CoordsView,
    value: ValueView,
    at: CoordsView,
)
    requires
        sound(m),
        m.clock < u64::MAX,
        m.spaces.contains_key(space),
        coords.dom().finite(),
        coords != Map::<Text, Text>::empty(),
        coords.submap_of(at),
    ensures
        ({
            let h = outcome(m, writer, RequestView::SetCell { space, coords, value });
            let n = machine_after(m, h.op);
            let cell = local_cell(m, writer, coords, Some(value));
            &&& applying(n, space, at).contains(cell)
            &&& resolved(n, space, at) is Some
            &&& !outranks(cell, resolved(n, space, at)->0)
        }),
{
    let h = outcome(m, writer, RequestView::SetCell { space, coords, value });
    let n = machine_after(m, h.op);
    let op = OpView::SetCell { space, coords, value };
    let cell = local_cell(m, writer, coords, Some(value));
    lemma_local_write(m, writer, op);
    let s = n.spaces[space];
    let k = canonical_key(coords);
    assert(s.cells.contains_key(k) && s.cells[k] == cell);
    lemma_applying(n, space, at, cell);
    law_most_specific(n, space, at, cell);
}

/// A cleared cell is gone from every slice and every read.
pub proof fn law_cleared(
    m: MachineView,
    writer: Text,
    space: Text,
    coords: CoordsView,
    view: CoordsView,
    c: CellView,
)
    requires
        sound(m),
        m.clock < u64::MAX,
        m.spaces.contains_key(space),
        coords.dom().finite(),
        c.coords == coords,
    ensures
        ({
            let h = outcome(m, writer, RequestView::ClearCell { space, coords });
            let n = machine_after(m, h.op);
            &&& h.response == ResponseView::Done
            &&& !sliced(n, space, view).contains(c)
            &&& resolved(n, space, view) != Some(c)
        }),
{
    let h = outcome(m, writer, RequestView::ClearCell { space, coords });
    let n = machine_after(m, h.op);
    lemma_local_write(m, writer, OpView::ClearCell { space, coords });
    let s = n.spaces[space];
    let key = canonical_key(coords);
    law_slice_members(n, space, view, c);
    lemma_applying(n, space, view, c);
    law_most_specific(n, space, view, c);
    if c.value is Some && exists|k: Text| #[trigger] s.cells.contains_key(k) && s.cells[k] == c {
        let k = choose|k: Text| #[trigger] s.cells.contains_key(k) && s.cells[k] == c;
        assert(cell_in_place(s, n.clock, k));
        assert(k == key);
    }
}

/// A write that comes late, with a stamp that does not beat the one in place,
/// changes neither a cell nor its provenance: it does not bring back what was
/// cleared.
pub proof fn law_stale_write_ignored(m: MachineView, op: StampedView, name: Text)
    requires
        cell_write(op) is Some,
        m.spaces.contains_key(space_of(op.inner)),
        m.spaces.contains_key(name),
        ({
            let k = canonical_key(cell_write(op)->0.cell.coords);
            let s = m.spaces[space_of(op.inner)];
            s.cells.contains_key(k) && !stamp_beats(op_stamp(op), cell_stamp(s.cells[k]))
        }),
    ensures
        applied(m, op).spaces[name].cells == m.spaces[name].cells,
        applied(m, op).spaces[name].derived == m.spaces[name].derived,
{
}

/// A derived cell carries its provenance, and a plain write to the same address takes
/// it away.
pub proof fn law_provenance(
    m: MachineView,
    writer: Text,
    space: Text,
    coords: CoordsView,
    value: ValueView,
    derivation: DerivationView,
)
    requires
        sound(m),
        m.clock < u64::MAX,
        m.spaces.contains_key(space),
        coords.dom().finite(),
        coords != Map::<Text, Text>::empty(),
    ensures
        ({
            let k = canonical_key(coords);
            let derived = outcome(
                m,
                writer,
                RequestView::SetDerived { space, coords, value, derivation },
            );
            let plain = outcome(m, writer, RequestView::SetCell { space, coords, value });
            let s = machine_after(m, derived.op).spaces[space];
            let t = machine_after(m, plain.op).spaces[space];
            &&& s.cells.contains_key(k) && s.cells[k] == local_cell(m, writer, coords, Some(value))
            &&& s.derived.contains_key(k) && s.derived[k] == derivation
            &&& t.cells.contains_key(k) && t.cells[k] == local_cell(m, writer, coords, Some(value))
            &&& !t.derived.contains_key(k)
        }),
{
    lemma_local_write(m, writer, OpView::SetDerived { space, coords, value, derivation });
    lemma_local_write(m, writer, OpView::SetCell { space, coords, value });
}

/// A rule that is defined stands, whatever stood under its id.
pub proof fn law_rule_defined(m: MachineView, writer: Text, space: Text, rule: RuleView)
    requires
        sound(m),
        m.clock < u64::MAX,
        m.spaces.contains_key(space),
        rule.id.len() > 0,
    ensures
        ({
            let h = outcome(m, writer, RequestView::DefineRule { space, rule });
            let s = machine_after(m, h.op).spaces[space];
            &&& h.response == ResponseView::Done
            &&& s.rules == m.spaces[space].rules.insert(rule.id, rule)
        }),
{
    let s = m.spaces[space];
    if s.rule_stamps.contains_key(rule.id) {
        assert(s.rule_stamps[rule.id].lamport <= m.clock);
    }
}

/// The definition with the highest stamp wins: one that comes late, with a stamp that
/// does not beat the one in place, changes no rule.
pub proof fn law_stale_rule_ignored(m: MachineView, op: StampedView, name: Text)
    requires
        op.inner is DefineRule,
        m.spaces.contains_key(space_of(op.inner)),
        m.spaces.contains_key(name),
        ({
            let s = m.spaces[space_of(op.inner)];
            s.rule_stamps.contains_key(op.inner->rule.id) && !stamp_beats(
                op_stamp(op),
                s.rule_stamps[op.inner->rule.id],
            )
        }),
    ensures
        applied(m, op).spaces[name].rules == m.spaces[name].rules,
        applied(m, op).spaces[name].rule_stamps == m.spaces[name].rule_stamps,
{
}

/// The list with `key` behind the rest, unless it is in the list.
pub open spec fn appended(coords: Seq<Text>, key: Text) -> Seq<Text> {
    if coords.contains(key) {
        coords
    } else {
        coords.push(key)
    }
}

/// A coordinate that comes later than everything that was seen is listed last.
proof fn lemma_appended(x: DimensionView, d: Text, clock: u64, key: Text, from: OriginView)
    requires
        dimension_sound(x, d, clock),
        from matches OriginView::Op { stamp } && stamp.lamport > clock,
    ensures
        with_coordinate(x, key, from).coords == appended(x.coords, key),
{
    lemma_listed_iff(x, d, clock, key);
    if x.origins.contains_key(key) {
        assert(origin_seen(x.origins[key], clock));
    } else {
        let origins = x.origins.insert(key, from);
        let coords = x.coords.push(key);
        assert forall|i: int, j: int| 0 <= i < j < coords.len() implies stands_before(
            origins,
            #[trigger] coords[i],
            #[trigger] coords[j],
        ) by {
            assert(x.coords.contains(x.coords[i]));
            assert(x.origins.contains_key(x.coords[i]));
            if j < x.coords.len() {
                assert(x.coords.contains(x.coords[j]));
                assert(x.origins.contains_key(x.coords[j]));
                assert(stands_before(x.origins, x.coords[i], x.coords[j]));
            } else {
                assert(origin_seen(x.origins[x.coords[i]], clock));
            }
        }
        assert forall|c: Text| #[trigger] origins.contains_key(c) <==> coords.contains(c) by {
            assert(coords[x.coords.len() as int] == key);
            if x.coords.contains(c) {
                let i = choose|i: int| 0 <= i < x.coords.len() && x.coords[i] == c;
                assert(coords[i] == c);
            }
        }
        lemma_listing(coords, origins);
    }
}

/// Coordinates stand in the order in which they are declared: one that is declared here
/// is put behind those that are known, unless it is one of them.
pub proof fn law_coordinate_appended(
    m: MachineView,
    writer: Text,
    space: Text,
    dimension: Text,
    key: Text,
)
    requires
        sound(m),
        m.clock < u64::MAX,
        m.spaces.contains_key(space),
        m.spaces[space].dimensions.contains_key(dimension),
    ensures
        ({
            let h = outcome(m, writer, RequestView::AddCoordinate { space, dimension, key });
            let before = m.spaces[space].dimensions[dimension].coords;
            let after = machine_after(m, h.op).spaces[space].dimensions[dimension].coords;
            &&& h.response == ResponseView::Done
            &&& after == appended(before, key)
        }),
{
    let op = next_stamped(m, writer, OpView::AddCoordinate { space, dimension, key });
    let s = m.spaces[space];
    lemma_known_after(s, op, dimension);
    lemma_appended(s.dimensions[dimension], dimension, m.clock, key, origin_of(op));
    assert(keys_of(op).contains_key(dimension) && keys_of(op)[dimension] == key);
    assert(!kinds_of(op).contains_key(dimension));
}

/// The space and the address of the cell that a request writes, where it writes one.
pub open spec fn written_at(req: RequestView) -> Option<(Text, CoordsView)> {
    match req {
        RequestView::SetCell { space, coords, .. } => Some((space, coords)),
        RequestView::ClearCell { space, coords } => Some((space, coords)),
        RequestView::SetDerived { space, coords, .. } => Some((space, coords)),
        _ => None,
    }
}

/// Writing a cell registers its address. Each of its coordinates is put behind those that
/// its dimension has, unless it is one of them, and a declared dimension keeps its kind. A
/// dimension that was not declared is one of strings from then on; where nothing was known
/// of it, the new coordinate is its only one. No other dimension changes.
pub proof fn law_address_registered(
    m: MachineView,
    writer: Text,
    req: RequestView,
    space: Text,
    coords: CoordsView,
    d: Text,
)
    requires
        sound(m),
        m.clock < u64::MAX,
        objection(m, req) is None,
        written_at(req) == Some((space, coords)),
    ensures
        ({
            let h = outcome(m, writer, req);
            let s = m.spaces[space];
            let t = machine_after(m, h.op).spaces[space];
            let before = known_dimension(s, d);
            let after = t.dimensions[d];
            &&& h.response == ResponseView::Done
            &&& coords.contains_key(d) ==> {
                &&& t.dimensions.contains_key(d)
                &&& after.name == d
                &&& after.coords == appended(before.coords, coords[d])
                &&& s.dimensions.contains_key(d) ==> after.kind == s.dimensions[d].kind
                &&& !s.dimensions.contains_key(d) ==> after.kind == "string"@
                &&& !s.dimensions.contains_key(d) && !s.waiting.contains_key(d) ==> after.coords
                    == seq![coords[d]]
            }
            &&& !coords.contains_key(d) ==> t.dimensions.get(d) == s.dimensions.get(d)
        }),
{
    let op = outcome(m, writer, req).op->0;
    let s = m.spaces[space];
    assert(m.spaces.contains_key(space));
    assert(cell_write(op)->0.cell.coords == coords);
    lemma_known_after(s, op, d);
    if coords.contains_key(d) {
        let declared = s.dimensions.contains_key(d);
        let x = known_dimension(s, d);
        lemma_bare_sound(d, m.clock);
        assert(dimension_sound(x, d, m.clock));
        let named = with_kind(x, declared, "string"@, origin_of(op));
        if declared {
            assert(origin_seen(x.kind_from, m.clock));
            assert(named == x);
            lemma_appended(x, d, m.clock, coords[d], origin_of(op));
        } else {
            let seen = DimensionView { kind_from: x.kind_from, ..named };
            lemma_appended(seen, d, m.clock, coords[d], origin_of(op));
            assert(with_coordinate(named, coords[d], origin_of(op)).coords == with_coordinate(
                seen,
                coords[d],
                origin_of(op),
            ).coords);
            if !s.waiting.contains_key(d) {
                assert(x.coords =~= Seq::<Text>::empty());
                assert(x.coords.push(coords[d]) =~= seq![coords[d]]);
            }
        }
    }
}

/// A dimension that is declared keeps its kind: declaring it anew changes no dimension.
pub proof fn law_declaration_kept(
    m: MachineView,
    writer: Text,
    space: Text,
    name: Text,
    kind: Text,
)
    requires
        sound(m),
        m.clock < u64::MAX,
        m.spaces.contains_key(space),
        m.spaces[space].dimensions.contains_key(name),
    ensures
        ({
            let h = outcome(m, writer, RequestView::AddDimension { space, name, kind });
            &&& h.response == ResponseView::Done
            &&& machine_after(m, h.op).spaces[space].dimensions == m.spaces[space].dimensions
        }),
{
    let op = next_stamped(m, writer, OpView::AddDimension { space, name, kind });
    let s = m.spaces[space];
    let t = space_after(s, op);
    assert(origin_seen(s.dimensions[name].kind_from, m.clock));
    assert forall|d: Text| #[trigger] t.dimensions.contains_key(d) <==> s.dimensions.contains_key(
        d,
    ) by {
        lemma_known_after(s, op, d);
    }
    assert forall|d: Text| #[trigger] t.dimensions.contains_key(d) implies t.dimensions[d]
        == s.dimensions[d] by {
        lemma_known_after(s, op, d);
        if d != name {
            assert(!touches(op, d));
            assert(t.dimensions.get(d) == s.dimensions.get(d));
        }
    }
    assert(t.dimensions =~= s.dimensions);
}

} // verus!
