//! Convergence of replicas: replicas that see the same ops reach the same state,
//! whatever the order and however often an op is delivered.

use vstd::prelude::*;

use crate::origin::{
    earlier, lemma_beats_irreflexive, lemma_beats_total, lemma_beats_transitive,
    lemma_earlier_irreflexive, lemma_earlier_total, lemma_earlier_transitive, stamp_beats,
    OriginView,
};
use crate::space::{
    applied, canonical_key, cell_stamp, cell_write, dimension_after, keys_of, kinds_of,
    known_dimension, known_space, located, op_stamp, space_after, space_of, DimensionView,
    MachineView, OpView, SpaceView, StampedView,
};
use crate::text::Text;

verus! {

/// The machine after a log of ops, from the first to the last.
pub open spec fn replay(m: MachineView, ops: Seq<StampedView>) -> MachineView
    decreases ops.len(),
{
    if ops.len() == 0 {
        m
    } else {
        applied(replay(m, ops.drop_last()), ops.last())
    }
}

/// Does an op write the cell under a key of a space?
pub open spec fn writes(op: StampedView, space: Text, key: Text) -> bool {
    cell_write(op) is Some && space_of(op.inner) == space && canonical_key(
        cell_write(op)->0.cell.coords,
    ) == key
}

/// Two ops that do not contradict each other: about one space, they do not write one
/// cell, define one rule or declare one dimension in two ways.
pub open spec fn agree(a: StampedView, b: StampedView) -> bool {
    space_of(a.inner) == space_of(b.inner) ==> {
        &&& cell_write(a) is Some && cell_write(b) is Some && canonical_key(
            cell_write(a)->0.cell.coords,
        ) == canonical_key(cell_write(b)->0.cell.coords) ==> cell_write(a) == cell_write(b)
        &&& a.inner is DefineRule && b.inner is DefineRule && a.inner->rule.id == b.inner->rule.id
            ==> a.inner->rule == b.inner->rule
        &&& forall|d: Text|
            kinds_of(a).contains_key(d) && #[trigger] kinds_of(b).contains_key(d) ==> kinds_of(a)[d]
                == kinds_of(b)[d]
    }
}

/// A stamp stands for one op: two ops of a log under one stamp do not contradict each
/// other.
pub open spec fn stamps_tell_apart(ops: Seq<StampedView>) -> bool {
    forall|a: StampedView, b: StampedView| #[trigger]
        ops.contains(a) && #[trigger] ops.contains(b) && op_stamp(a) == op_stamp(b) ==> agree(a, b)
}

/// Where what an op brings comes from.
pub open spec fn origin_of(op: StampedView) -> OriginView {
    OriginView::Op { stamp: op_stamp(op) }
}

/// Does an op declare a dimension, or bring a coordinate of it?
pub open spec fn touches(op: StampedView, d: Text) -> bool {
    kinds_of(op).contains_key(d) || keys_of(op).contains_key(d)
}

proof fn lemma_dimension_commutes(
    x: DimensionView,
    declared: bool,
    ka: Option<Text>,
    la: Option<Text>,
    a: OriginView,
    kb: Option<Text>,
    lb: Option<Text>,
    b: OriginView,
)
    requires
        a == b && ka is Some && kb is Some ==> ka == kb,
    ensures
        dimension_after(dimension_after(x, declared, ka, la, a), declared || ka is Some, kb, lb, b)
            == dimension_after(
            dimension_after(x, declared, kb, lb, b),
            declared || kb is Some,
            ka,
            la,
            a,
        ),
{
    lemma_earlier_total(a, b);
    lemma_earlier_irreflexive(a);
    if earlier(a, b) && earlier(b, a) {
        lemma_earlier_transitive(a, b, a);
    }
    let p = x.kind_from;
    if earlier(a, b) && earlier(b, p) {
        lemma_earlier_transitive(a, b, p);
    }
    if earlier(b, a) && earlier(a, p) {
        lemma_earlier_transitive(b, a, p);
    }
    if la is Some && lb is Some {
        let i = la->0;
        let j = lb->0;
        if i == j {
            let q = x.origins[i];
            if earlier(a, b) && earlier(b, q) {
                lemma_earlier_transitive(a, b, q);
            }
            if earlier(b, a) && earlier(a, q) {
                lemma_earlier_transitive(b, a, q);
            }
            assert(x.origins.insert(i, a).insert(i, b) =~= x.origins.insert(i, b));
            assert(x.origins.insert(i, b).insert(i, a) =~= x.origins.insert(i, a));
        } else {
            assert(x.origins.insert(i, a).insert(j, b) =~= x.origins.insert(j, b).insert(i, a));
        }
    }
}

/// What an op makes of a dimension that it touches stands where it belongs.
pub proof fn lemma_known_after(s: SpaceView, op: StampedView, d: Text)
    ensures
        ({
            let t = space_after(s, op);
            let declared = s.dimensions.contains_key(d);
            &&& t.dimensions.contains_key(d) <==> declared || kinds_of(op).contains_key(d)
            &&& touches(op, d) ==> known_dimension(t, d) == dimension_after(
                known_dimension(s, d),
                declared,
                kinds_of(op).get(d),
                keys_of(op).get(d),
                origin_of(op),
            ) && (t.waiting.contains_key(d) <==> !t.dimensions.contains_key(d))
            &&& !touches(op, d) ==> t.dimensions.get(d) == s.dimensions.get(d) && t.waiting.get(d)
                == s.waiting.get(d)
        }),
{
    let t = located(s, kinds_of(op), keys_of(op), origin_of(op));
    assert(space_after(s, op).dimensions == t.dimensions);
    assert(space_after(s, op).waiting == t.waiting);
}

spec fn same_slot(s: SpaceView, t: SpaceView, d: Text) -> bool {
    s.dimensions.get(d) == t.dimensions.get(d) && s.waiting.get(d) == t.waiting.get(d)
}

proof fn lemma_slots_commute(s: SpaceView, a: StampedView, b: StampedView, d: Text)
    requires
        space_of(a.inner) == space_of(b.inner),
        op_stamp(a) == op_stamp(b) ==> agree(a, b),
    ensures
        same_slot(space_after(space_after(s, a), b), space_after(space_after(s, b), a), d),
{
    let sa = space_after(s, a);
    let sb = space_after(s, b);
    lemma_known_after(s, a, d);
    lemma_known_after(s, b, d);
    lemma_known_after(sa, b, d);
    lemma_known_after(sb, a, d);
    if touches(a, d) && touches(b, d) {
        if origin_of(a) == origin_of(b) && kinds_of(a).contains_key(d) && kinds_of(b).contains_key(
            d,
        ) {
            assert(op_stamp(a) == op_stamp(b));
            assert(kinds_of(a)[d] == kinds_of(b)[d]);
        }
        lemma_dimension_commutes(
            known_dimension(s, d),
            s.dimensions.contains_key(d),
            kinds_of(a).get(d),
            keys_of(a).get(d),
            origin_of(a),
            kinds_of(b).get(d),
            keys_of(b).get(d),
            origin_of(b),
        );
    }
}

proof fn lemma_same_slots(s: SpaceView, t: SpaceView)
    requires
        forall|d: Text| #[trigger] same_slot(s, t, d),
    ensures
        s.dimensions == t.dimensions,
        s.waiting == t.waiting,
{
    assert forall|d: Text| #[trigger] s.dimensions.contains_key(d) <==> t.dimensions.contains_key(
        d,
    ) by {
        assert(same_slot(s, t, d));
    }
    assert forall|d: Text| #[trigger] s.dimensions.contains_key(d) implies s.dimensions[d]
        == t.dimensions[d] by {
        assert(same_slot(s, t, d));
    }
    assert forall|d: Text| #[trigger] s.waiting.contains_key(d) <==> t.waiting.contains_key(d) by {
        assert(same_slot(s, t, d));
    }
    assert forall|d: Text| #[trigger] s.waiting.contains_key(d) implies s.waiting[d]
        == t.waiting[d] by {
        assert(same_slot(s, t, d));
    }
    assert(s.dimensions =~= t.dimensions);
    assert(s.waiting =~= t.waiting);
}

proof fn lemma_cells_commute(s: SpaceView, a: StampedView, b: StampedView)
    requires
        space_of(a.inner) == space_of(b.inner),
        op_stamp(a) == op_stamp(b) ==> agree(a, b),
    ensures
        ({
            let ab = space_after(space_after(s, a), b);
            let ba = space_after(space_after(s, b), a);
            ab.cells == ba.cells && ab.derived == ba.derived
        }),
{
    let ab = space_after(space_after(s, a), b);
    let ba = space_after(space_after(s, b), a);
    lemma_beats_total(op_stamp(a), op_stamp(b));
    lemma_beats_irreflexive(op_stamp(a));
    lemma_beats_irreflexive(op_stamp(b));
    if stamp_beats(op_stamp(a), op_stamp(b)) && stamp_beats(op_stamp(b), op_stamp(a)) {
        lemma_beats_transitive(op_stamp(a), op_stamp(b), op_stamp(a));
    }
    if cell_write(a) is Some && cell_write(b) is Some {
        let wa = cell_write(a)->0;
        let wb = cell_write(b)->0;
        let k = canonical_key(wa.cell.coords);
        assert(cell_stamp(wa.cell) == op_stamp(a) && cell_stamp(wb.cell) == op_stamp(b));
        if k == canonical_key(wb.cell.coords) && s.cells.contains_key(k) {
            let c = cell_stamp(s.cells[k]);
            if stamp_beats(op_stamp(a), op_stamp(b)) && stamp_beats(op_stamp(b), c) {
                lemma_beats_transitive(op_stamp(a), op_stamp(b), c);
            }
            if stamp_beats(op_stamp(b), op_stamp(a)) && stamp_beats(op_stamp(a), c) {
                lemma_beats_transitive(op_stamp(b), op_stamp(a), c);
            }
        }
    }
    assert(ab.cells =~= ba.cells);
    assert(ab.derived =~= ba.derived);
}

proof fn lemma_rules_commute(s: SpaceView, a: StampedView, b: StampedView)
    requires
        space_of(a.inner) == space_of(b.inner),
        op_stamp(a) == op_stamp(b) ==> agree(a, b),
    ensures
        ({
            let ab = space_after(space_after(s, a), b);
            let ba = space_after(space_after(s, b), a);
            ab.rules == ba.rules && ab.rule_stamps == ba.rule_stamps
        }),
{
    let ab = space_after(space_after(s, a), b);
    let ba = space_after(space_after(s, b), a);
    lemma_beats_total(op_stamp(a), op_stamp(b));
    lemma_beats_irreflexive(op_stamp(a));
    lemma_beats_irreflexive(op_stamp(b));
    if stamp_beats(op_stamp(a), op_stamp(b)) && stamp_beats(op_stamp(b), op_stamp(a)) {
        lemma_beats_transitive(op_stamp(a), op_stamp(b), op_stamp(a));
    }
    if a.inner is DefineRule && b.inner is DefineRule {
        let id = a.inner->rule.id;
        if id == b.inner->rule.id && s.rule_stamps.contains_key(id) {
            let c = s.rule_stamps[id];
            if stamp_beats(op_stamp(a), op_stamp(b)) && stamp_beats(op_stamp(b), c) {
                lemma_beats_transitive(op_stamp(a), op_stamp(b), c);
            }
            if stamp_beats(op_stamp(b), op_stamp(a)) && stamp_beats(op_stamp(a), c) {
                lemma_beats_transitive(op_stamp(b), op_stamp(a), c);
            }
        }
    }
    assert(ab.rules =~= ba.rules);
    assert(ab.rule_stamps =~= ba.rule_stamps);
}

proof fn lemma_space_commutes(s: SpaceView, a: StampedView, b: StampedView)
    requires
        space_of(a.inner) == space_of(b.inner),
        op_stamp(a) == op_stamp(b) ==> agree(a, b),
    ensures
        space_after(space_after(s, a), b) == space_after(space_after(s, b), a),
{
    let ab = space_after(space_after(s, a), b);
    let ba = space_after(space_after(s, b), a);
    assert forall|d: Text| #[trigger] same_slot(ab, ba, d) by {
        lemma_slots_commute(s, a, b, d);
    }
    lemma_same_slots(ab, ba);
    lemma_cells_commute(s, a, b);
    lemma_rules_commute(s, a, b);
    assert(ab.name == s.name && ba.name == s.name);
    assert(ab =~= ba);
}

/// Two ops lead to the same machine in either order, unless they contradict each other
/// under one stamp.
pub proof fn law_ops_commute(m: MachineView, a: StampedView, b: StampedView)
    requires
        op_stamp(a) == op_stamp(b) ==> agree(a, b),
    ensures
        applied(applied(m, a), b) == applied(applied(m, b), a),
{
    let x = space_of(a.inner);
    let y = space_of(b.inner);
    let ab = applied(applied(m, a), b);
    let ba = applied(applied(m, b), a);
    if x == y {
        let s = known_space(m, x);
        assert(known_space(applied(m, a), x) == space_after(s, a));
        assert(known_space(applied(m, b), x) == space_after(s, b));
        lemma_space_commutes(s, a, b);
    } else {
        assert(known_space(applied(m, a), y) == known_space(m, y));
        assert(known_space(applied(m, b), x) == known_space(m, x));
    }
    assert(ab.spaces =~= ba.spaces);
    assert(ab.waiting =~= ba.waiting);
}

spec fn dimension_settled(
    x: DimensionView,
    declared: bool,
    kind: Option<Text>,
    key: Option<Text>,
    from: OriginView,
) -> bool {
    &&& kind is Some ==> declared && !earlier(from, x.kind_from)
    &&& key matches Some(k) ==> x.origins.contains_key(k) && !earlier(from, x.origins[k])
}

proof fn lemma_dimension_settles(
    x: DimensionView,
    declared: bool,
    kind: Option<Text>,
    key: Option<Text>,
    from: OriginView,
)
    ensures
        dimension_settled(
            dimension_after(x, declared, kind, key, from),
            declared || kind is Some,
            kind,
            key,
            from,
        ),
{
    lemma_earlier_irreflexive(from);
}

proof fn lemma_dimension_stays_settled(
    x: DimensionView,
    declared: bool,
    kind: Option<Text>,
    key: Option<Text>,
    from: OriginView,
    other_kind: Option<Text>,
    other_key: Option<Text>,
    other: OriginView,
)
    requires
        dimension_settled(x, declared, kind, key, from),
    ensures
        dimension_settled(
            dimension_after(x, declared, other_kind, other_key, other),
            declared || other_kind is Some,
            kind,
            key,
            from,
        ),
{
    if earlier(from, other) {
        if earlier(other, x.kind_from) {
            lemma_earlier_transitive(from, other, x.kind_from);
        }
        if key is Some && earlier(other, x.origins[key->0]) {
            lemma_earlier_transitive(from, other, x.origins[key->0]);
        }
    }
}

spec fn slot_settled(s: SpaceView, op: StampedView, d: Text) -> bool {
    touches(op, d) ==> {
        &&& s.waiting.contains_key(d) <==> !s.dimensions.contains_key(d)
        &&& dimension_settled(
            known_dimension(s, d),
            s.dimensions.contains_key(d),
            kinds_of(op).get(d),
            keys_of(op).get(d),
            origin_of(op),
        )
    }
}

/// An op has nothing more to add to a space.
spec fn space_settled(s: SpaceView, op: StampedView) -> bool {
    &&& forall|d: Text| #[trigger] slot_settled(s, op, d)
    &&& cell_write(op) matches Some(w) ==> s.cells.contains_key(canonical_key(w.cell.coords))
        && !stamp_beats(op_stamp(op), cell_stamp(s.cells[canonical_key(w.cell.coords)]))
    &&& op.inner matches OpView::DefineRule { rule, .. } ==> s.rule_stamps.contains_key(rule.id)
        && !stamp_beats(op_stamp(op), s.rule_stamps[rule.id])
}

proof fn lemma_space_settles(s: SpaceView, op: StampedView)
    ensures
        space_settled(space_after(s, op), op),
{
    let t = space_after(s, op);
    assert forall|d: Text| #[trigger] slot_settled(t, op, d) by {
        lemma_known_after(s, op, d);
        lemma_dimension_settles(
            known_dimension(s, d),
            s.dimensions.contains_key(d),
            kinds_of(op).get(d),
            keys_of(op).get(d),
            origin_of(op),
        );
    }
    lemma_beats_irreflexive(op_stamp(op));
}

proof fn lemma_space_stays_settled(s: SpaceView, op: StampedView, by: StampedView)
    requires
        space_settled(s, op),
    ensures
        space_settled(space_after(s, by), op),
{
    let t = space_after(s, by);
    assert forall|d: Text| #[trigger] slot_settled(t, op, d) by {
        assert(slot_settled(s, op, d));
        lemma_known_after(s, by, d);
        if touches(op, d) && touches(by, d) {
            lemma_dimension_stays_settled(
                known_dimension(s, d),
                s.dimensions.contains_key(d),
                kinds_of(op).get(d),
                keys_of(op).get(d),
                origin_of(op),
                kinds_of(by).get(d),
                keys_of(by).get(d),
                origin_of(by),
            );
        }
    }
    if let Some(w) = cell_write(op) {
        let k = canonical_key(w.cell.coords);
        let c = cell_stamp(s.cells[k]);
        if stamp_beats(op_stamp(op), op_stamp(by)) && stamp_beats(op_stamp(by), c) {
            lemma_beats_transitive(op_stamp(op), op_stamp(by), c);
        }
    }
    if let OpView::DefineRule { rule, .. } = op.inner {
        let c = s.rule_stamps[rule.id];
        if stamp_beats(op_stamp(op), op_stamp(by)) && stamp_beats(op_stamp(by), c) {
            lemma_beats_transitive(op_stamp(op), op_stamp(by), c);
        }
    }
}

proof fn lemma_settled_space_keeps(s: SpaceView, op: StampedView)
    requires
        space_settled(s, op),
    ensures
        space_after(s, op) == s,
{
    let t = space_after(s, op);
    assert forall|d: Text| #[trigger] same_slot(t, s, d) by {
        assert(slot_settled(s, op, d));
        lemma_known_after(s, op, d);
    }
    lemma_same_slots(t, s);
    assert(t =~= s);
}

/// An op has nothing more to add to a machine.
spec fn settled(m: MachineView, op: StampedView) -> bool {
    let name = space_of(op.inner);
    &&& m.clock >= op.lamport
    &&& op.inner is CreateSpace ==> m.spaces.contains_key(name)
    &&& m.waiting.contains_key(name) <==> !m.spaces.contains_key(name)
    &&& space_settled(known_space(m, name), op)
}

proof fn lemma_settles(m: MachineView, op: StampedView)
    ensures
        settled(applied(m, op), op),
{
    lemma_space_settles(known_space(m, space_of(op.inner)), op);
}

proof fn lemma_stays_settled(m: MachineView, op: StampedView, by: StampedView)
    requires
        settled(m, op),
    ensures
        settled(applied(m, by), op),
{
    if space_of(op.inner) == space_of(by.inner) {
        lemma_space_stays_settled(known_space(m, space_of(op.inner)), op, by);
    }
}

proof fn lemma_settled_keeps(m: MachineView, op: StampedView)
    requires
        settled(m, op),
    ensures
        applied(m, op) == m,
{
    let name = space_of(op.inner);
    let n = applied(m, op);
    lemma_settled_space_keeps(known_space(m, name), op);
    assert(n.spaces =~= m.spaces);
    assert(n.waiting =~= m.waiting);
}

proof fn lemma_all_settled(m: MachineView, ops: Seq<StampedView>, op: StampedView)
    requires
        ops.contains(op),
    ensures
        settled(replay(m, ops), op),
    decreases ops.len(),
{
    let rest = ops.drop_last();
    if ops.last() == op {
        lemma_settles(replay(m, rest), op);
    } else {
        let i = choose|i: int| 0 <= i < ops.len() && ops[i] == op;
        assert(rest[i] == op);
        lemma_all_settled(m, rest, op);
        lemma_stays_settled(replay(m, rest), op, ops.last());
    }
}

/// Applying an op twice in a row is applying it once.
pub proof fn law_idempotent(m: MachineView, op: StampedView)
    ensures
        applied(applied(m, op), op) == applied(m, op),
{
    lemma_settles(m, op);
    lemma_settled_keeps(applied(m, op), op);
}

/// A second delivery of an op, however late, changes nothing.
pub proof fn law_redelivery(m: MachineView, ops: Seq<StampedView>, op: StampedView)
    requires
        ops.contains(op),
    ensures
        replay(m, ops.push(op)) == replay(m, ops),
{
    assert(ops.push(op).drop_last() =~= ops);
    lemma_all_settled(m, ops, op);
    lemma_settled_keeps(replay(m, ops), op);
}

proof fn lemma_nothing_new(n: MachineView, ops: Seq<StampedView>)
    requires
        forall|o: StampedView| #[trigger] ops.contains(o) ==> settled(n, o),
    ensures
        replay(n, ops) == n,
    decreases ops.len(),
{
    if ops.len() > 0 {
        let rest = ops.drop_last();
        assert forall|o: StampedView| #[trigger] rest.contains(o) implies settled(n, o) by {
            let i = choose|i: int| 0 <= i < rest.len() && rest[i] == o;
            assert(ops[i] == o);
            assert(ops.contains(o));
        }
        lemma_nothing_new(n, rest);
        assert(ops.contains(ops.last()));
        lemma_settled_keeps(n, ops.last());
    }
}

spec fn all_agree(a: Seq<StampedView>, op: StampedView) -> bool {
    forall|o: StampedView| #[trigger]
        a.contains(o) && op_stamp(o) == op_stamp(op) ==> agree(o, op)
}

proof fn lemma_op_first(m: MachineView, a: Seq<StampedView>, op: StampedView)
    requires
        all_agree(a, op),
    ensures
        applied(replay(m, a), op) == replay(applied(m, op), a),
    decreases a.len(),
{
    if a.len() > 0 {
        let rest = a.drop_last();
        assert forall|o: StampedView| #[trigger]
            rest.contains(o) && op_stamp(o) == op_stamp(op) implies agree(o, op) by {
            let i = choose|i: int| 0 <= i < rest.len() && rest[i] == o;
            assert(a[i] == o);
            assert(a.contains(o));
        }
        lemma_op_first(m, rest, op);
        assert(a.contains(a.last()));
        law_ops_commute(replay(m, rest), a.last(), op);
    }
}

proof fn lemma_logs_commute(m: MachineView, a: Seq<StampedView>, b: Seq<StampedView>)
    requires
        forall|o: StampedView| #[trigger] b.contains(o) ==> all_agree(a, o),
    ensures
        replay(replay(m, a), b) == replay(replay(m, b), a),
    decreases b.len(),
{
    if b.len() > 0 {
        let rest = b.drop_last();
        assert forall|o: StampedView| #[trigger] rest.contains(o) implies all_agree(a, o) by {
            let i = choose|i: int| 0 <= i < rest.len() && rest[i] == o;
            assert(b[i] == o);
            assert(b.contains(o));
        }
        lemma_logs_commute(m, a, rest);
        assert(b.contains(b.last()));
        lemma_op_first(replay(m, rest), a, b.last());
    }
}

/// Replicas that see the same set of ops reach the same state: from one machine, two
/// logs with the same ops, in any order and with any repetitions, lead to the same
/// machine. A stamp must stand for one op.
pub proof fn law_convergence(m: MachineView, a: Seq<StampedView>, b: Seq<StampedView>)
    requires
        a.to_set() == b.to_set(),
        stamps_tell_apart(a),
    ensures
        replay(m, a) == replay(m, b),
{
    assert forall|o: StampedView| #[trigger] a.contains(o) <==> b.contains(o) by {
        assert(a.to_set().contains(o) == a.contains(o));
        assert(b.to_set().contains(o) == b.contains(o));
    }
    assert forall|o: StampedView| #[trigger] b.contains(o) implies all_agree(a, o) by {
        assert(a.contains(o));
    }
    lemma_logs_commute(m, a, b);
    assert forall|o: StampedView| #[trigger] b.contains(o) implies settled(replay(m, a), o) by {
        assert(a.contains(o));
        lemma_all_settled(m, a, o);
    }
    lemma_nothing_new(replay(m, a), b);
    assert forall|o: StampedView| #[trigger] a.contains(o) implies settled(replay(m, b), o) by {
        assert(b.contains(o));
        lemma_all_settled(m, b, o);
    }
    lemma_nothing_new(replay(m, b), a);
}

} // verus!
