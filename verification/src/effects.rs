//! What requests are turned down, what op comes of the others, and what an op does to the
//! spaces, told field by field.

use vstd::prelude::*;

use crate::convergence::lemma_known_after;
use crate::origin::{earlier, stamp_beats, OriginView, StampView};
use crate::proto::{machine_after, outcome, will_stamp, RequestView, ResponseView};
use crate::reading::{dimension_sound, finite_op, law_sound_kept, lemma_listed_iff, sound};
use crate::space::{
    applied, canonical_key, keys_of, kinds_of, known_dimension, space_after, space_of, CellView,
    CoordsView, DerivationView, MachineView, OpView, RuleView, SpaceView, StampedView, ValueView,
};
use crate::text::{text_lt, Text};

verus! {

/// A stamp beats another by a later Lamport time, or by a writer that sorts later where
/// both have the same.
pub proof fn law_stamp_order(a: StampView, b: StampView)
    ensures
        a.lamport > b.lamport ==> stamp_beats(a, b),
        a.lamport < b.lamport ==> !stamp_beats(a, b),
        a.lamport == b.lamport ==> (stamp_beats(a, b) <==> text_lt(b.writer, a.writer)),
{
}

/// What is there from birth comes before what an op brought; of two ops, the one whose
/// stamp is beaten brought its part first.
pub proof fn law_origin_order(a: StampView, b: StampView)
    ensures
        earlier(OriginView::Birth, OriginView::Op { stamp: a }),
        !earlier(OriginView::Op { stamp: a }, OriginView::Birth),
        !earlier(OriginView::Birth, OriginView::Birth),
        earlier(OriginView::Op { stamp: a }, OriginView::Op { stamp: b }) <==> a.lamport
            < b.lamport || (a.lamport == b.lamport && text_lt(a.writer, b.writer)),
{
}

/// A request about a space that is not there is turned down with the name of the space;
/// only creating it and reading a point of it are not.
pub proof fn law_missing_space_refused(
    m: MachineView,
    writer: Text,
    space: Text,
    coords: CoordsView,
    text: Text,
    value: ValueView,
    rule: RuleView,
    derivation: DerivationView,
)
    requires
        !m.spaces.contains_key(space),
    ensures
        ({
            let refusal = ResponseView::Error { error: "no such space: "@ + space };
            let answer = |req: RequestView| outcome(m, writer, req).response;
            &&& answer(RequestView::Describe { space }) == refusal
            &&& answer(RequestView::Slice { space, fixed: coords }) == refusal
            &&& answer(RequestView::Rules { space }) == refusal
            &&& answer(RequestView::AddDimension { space, name: text, kind: text }) == refusal
            &&& answer(RequestView::SetCell { space, coords, value }) == refusal
            &&& answer(RequestView::ClearCell { space, coords }) == refusal
            &&& answer(RequestView::DefineRule { space, rule }) == refusal
            &&& answer(RequestView::SetDerived { space, coords, value, derivation }) == refusal
        }),
{
}

/// What else is turned down: a space without a name, a coordinate of a dimension that is
/// not declared, a cell without an address, a rule without an id, and what needs the mesh.
pub proof fn law_refusals(
    m: MachineView,
    writer: Text,
    space: Text,
    dimension: Text,
    key: Text,
    value: ValueView,
    rule: RuleView,
    derivation: DerivationView,
    req: RequestView,
)
    ensures
        ({
            let answer = |req: RequestView| outcome(m, writer, req).response;
            let nowhere = Map::<Text, Text>::empty();
            &&& space.len() == 0 ==> answer(RequestView::CreateSpace { space }) == (
            ResponseView::Error { error: "space name must not be empty"@ })
            &&& !(m.spaces.contains_key(space) && m.spaces[space].dimensions.contains_key(
                dimension,
            )) ==> answer(RequestView::AddCoordinate { space, dimension, key }) == (
            ResponseView::Error { error: "no such dimension: "@ + space + "/"@ + dimension })
            &&& m.spaces.contains_key(space) ==> answer(
                RequestView::SetCell { space, coords: nowhere, value },
            ) == (ResponseView::Error { error: "coords must fix at least one dimension"@ })
            &&& m.spaces.contains_key(space) ==> answer(
                RequestView::SetDerived { space, coords: nowhere, value, derivation },
            ) == (ResponseView::Error { error: "coords must fix at least one dimension"@ })
            &&& m.spaces.contains_key(space) && rule.id.len() == 0 ==> answer(
                RequestView::DefineRule { space, rule },
            ) == (ResponseView::Error { error: "rule id must not be empty"@ })
            &&& req is Materialize || req is Analyze ==> answer(req) == (ResponseView::Error {
                error: "materialize/analyze need the mesh and are handled by the daemon"@,
            })
        }),
{
}

/// Every other request to change a space is taken: the op that it spells comes of it,
/// stamped one past the clock in the name of the writer.
pub proof fn law_requests_taken(
    m: MachineView,
    writer: Text,
    space: Text,
    name: Text,
    kind: Text,
    coords: CoordsView,
    value: ValueView,
    rule: RuleView,
    derivation: DerivationView,
)
    requires
        m.clock < u64::MAX,
    ensures
        ({
            let taken = |req: RequestView, op: OpView|
                {
                    let h = outcome(m, writer, req);
                    &&& h.response == ResponseView::Done
                    &&& h.op matches Some(stamped) && stamped.inner == op && stamped.writer
                        == writer && stamped.lamport == m.clock + 1
                };
            let there = m.spaces.contains_key(space);
            &&& space.len() > 0 ==> taken(
                RequestView::CreateSpace { space },
                OpView::CreateSpace { space },
            )
            &&& there ==> taken(
                RequestView::AddDimension { space, name, kind },
                OpView::AddDimension { space, name, kind },
            )
            &&& there && m.spaces[space].dimensions.contains_key(name) ==> taken(
                RequestView::AddCoordinate { space, dimension: name, key: kind },
                OpView::AddCoordinate { space, dimension: name, key: kind },
            )
            &&& there && coords != Map::<Text, Text>::empty() ==> taken(
                RequestView::SetCell { space, coords, value },
                OpView::SetCell { space, coords, value },
            )
            &&& there ==> taken(
                RequestView::ClearCell { space, coords },
                OpView::ClearCell { space, coords },
            )
            &&& there && rule.id.len() > 0 ==> taken(
                RequestView::DefineRule { space, rule },
                OpView::DefineRule { space, rule },
            )
            &&& there && coords != Map::<Text, Text>::empty() ==> taken(
                RequestView::SetDerived { space, coords, value, derivation },
                OpView::SetDerived { space, coords, value, derivation },
            )
        }),
{
}

/// The clock has to advance for exactly those requests of which an op comes.
pub proof fn law_stamp_due(m: MachineView, writer: Text, req: RequestView)
    ensures
        will_stamp(m, req) <==> outcome(m, writer, req).op is Some,
{
}

/// A request leads to the machine to which its op leads, and where no op came of it the
/// machine stays as it is.
pub proof fn law_request_applies_its_op(m: MachineView, op: StampedView)
    ensures
        machine_after(m, Some(op)) == applied(m, op),
        machine_after(m, None) == m,
{
}

/// The space that an op is about is the one it names.
pub proof fn law_op_names_its_space(
    space: Text,
    name: Text,
    kind: Text,
    coords: CoordsView,
    value: ValueView,
    rule: RuleView,
    derivation: DerivationView,
)
    ensures
        space_of(OpView::CreateSpace { space }) == space,
        space_of(OpView::AddDimension { space, name, kind }) == space,
        space_of(OpView::AddCoordinate { space, dimension: name, key: kind }) == space,
        space_of(OpView::SetCell { space, coords, value }) == space,
        space_of(OpView::ClearCell { space, coords }) == space,
        space_of(OpView::DefineRule { space, rule }) == space,
        space_of(OpView::SetDerived { space, coords, value, derivation }) == space,
{
}

/// An op touches no space but its own, takes no space away, and never sets the clock back:
/// the clock then stands at the later of its own time and that of the op.
pub proof fn law_op_stays_home(m: MachineView, op: StampedView, name: Text)
    ensures
        ({
            let n = applied(m, op);
            &&& n.clock >= m.clock && n.clock >= op.lamport
            &&& n.clock == m.clock || n.clock == op.lamport
            &&& name != space_of(op.inner) ==> n.spaces.get(name) == m.spaces.get(name)
                && n.waiting.get(name) == m.waiting.get(name)
            &&& m.spaces.contains_key(name) ==> n.spaces.contains_key(name)
                && n.spaces[name].name == m.spaces[name].name
            &&& n.spaces.contains_key(name) && !m.spaces.contains_key(name) ==> op.inner
                is CreateSpace && name == space_of(op.inner)
        }),
{
}

/// Creating a space of which nothing is known makes one with its name, with the
/// representation axis on which the raw plane stands, and with nothing else in it.
pub proof fn law_space_created(m: MachineView, op: StampedView, space: Text)
    requires
        op.inner == (OpView::CreateSpace { space }),
        !m.spaces.contains_key(space),
        !m.waiting.contains_key(space),
    ensures
        ({
            let s = applied(m, op).spaces[space];
            &&& applied(m, op).spaces.contains_key(space)
            &&& s.name == space
            &&& s.cells == Map::<Text, CellView>::empty()
            &&& s.rules == Map::<Text, RuleView>::empty()
            &&& s.derived == Map::<Text, DerivationView>::empty()
            &&& forall|d: Text| #[trigger]
                s.dimensions.contains_key(d) <==> d == "representation"@
            &&& s.dimensions["representation"@].name == "representation"@
            &&& s.dimensions["representation"@].kind == "string"@
            &&& s.dimensions["representation"@].coords == seq!["raw"@]
        }),
{
    let x = crate::space::new_space(space);
    lemma_dimensions_left(x, op);
}

/// Creating a space that is there changes nothing in it.
pub proof fn law_space_created_again(m: MachineView, op: StampedView, space: Text)
    requires
        op.inner == (OpView::CreateSpace { space }),
        m.spaces.contains_key(space),
    ensures
        applied(m, op).spaces == m.spaces,
{
    lemma_dimensions_left(m.spaces[space], op);
    assert(applied(m, op).spaces =~= m.spaces);
}

proof fn lemma_dimensions_left(s: SpaceView, op: StampedView)
    requires
        op.inner is CreateSpace || op.inner is DefineRule,
    ensures
        space_after(s, op).dimensions == s.dimensions,
        space_after(s, op).waiting == s.waiting,
        op.inner is CreateSpace ==> space_after(s, op) == s,
{
    crate::space::lemma_located_nothing(
        s,
        kinds_of(op),
        keys_of(op),
        OriginView::Op { stamp: crate::space::op_stamp(op) },
    );
}

/// An op that writes a cell takes effect where nothing stands at the address, or where
/// what stands there has a lesser Lamport time, or the same and a writer that sorts
/// earlier. Then exactly the cell at the address becomes the value of the op with its
/// stamp, and its provenance that of the op, or none. Otherwise no cell and no provenance
/// changes. The rules stay in any case.
pub proof fn law_cell_written(
    m: MachineView,
    op: StampedView,
    space: Text,
    coords: CoordsView,
    value: Option<ValueView>,
    derivation: Option<DerivationView>,
    k: Text,
)
    requires
        op.inner == (match value {
            None => OpView::ClearCell { space, coords },
            Some(value) => match derivation {
                None => OpView::SetCell { space, coords, value },
                Some(derivation) => OpView::SetDerived { space, coords, value, derivation },
            },
        }),
        derivation is Some ==> value is Some,
        m.spaces.contains_key(space),
    ensures
        ({
            let at = canonical_key(coords);
            let s = m.spaces[space];
            let t = applied(m, op).spaces[space];
            let wins = !s.cells.contains_key(at) || s.cells[at].lamport < op.lamport || (
            s.cells[at].lamport == op.lamport && text_lt(s.cells[at].writer, op.writer));
            &&& t.rules == s.rules && t.rule_stamps == s.rule_stamps && t.name == s.name
            &&& k != at || !wins ==> t.cells.get(k) == s.cells.get(k) && t.derived.get(k)
                == s.derived.get(k)
            &&& wins ==> {
                &&& t.cells.contains_key(at)
                &&& t.cells[at].coords == coords
                &&& t.cells[at].value == value
                &&& t.cells[at].lamport == op.lamport
                &&& t.cells[at].writer == op.writer
                &&& t.derived.get(at) == derivation
            }
        }),
{
}

/// A cell that is written here stands, whatever stood at its address: with its value, one
/// past the clock, in the name of the writer. Every other cell and its provenance stay.
pub proof fn law_written_here(
    m: MachineView,
    writer: Text,
    req: RequestView,
    space: Text,
    coords: CoordsView,
    value: Option<ValueView>,
    derivation: Option<DerivationView>,
    k: Text,
)
    requires
        sound(m),
        m.clock < u64::MAX,
        m.spaces.contains_key(space),
        coords != Map::<Text, Text>::empty(),
        req == (match value {
            None => RequestView::ClearCell { space, coords },
            Some(value) => match derivation {
                None => RequestView::SetCell { space, coords, value },
                Some(derivation) => RequestView::SetDerived { space, coords, value, derivation },
            },
        }),
        derivation is Some ==> value is Some,
    ensures
        ({
            let at = canonical_key(coords);
            let h = outcome(m, writer, req);
            let s = m.spaces[space];
            let t = machine_after(m, h.op).spaces[space];
            &&& h.response == ResponseView::Done
            &&& t.rules == s.rules
            &&& k != at ==> t.cells.get(k) == s.cells.get(k) && t.derived.get(k) == s.derived.get(k)
            &&& t.cells.contains_key(at)
            &&& t.cells[at].coords == coords
            &&& t.cells[at].value == value
            &&& t.cells[at].lamport == m.clock + 1
            &&& t.cells[at].writer == writer
            &&& t.derived.get(at) == derivation
            &&& machine_after(m, h.op).clock == m.clock + 1
        }),
{
    let at = canonical_key(coords);
    let s = m.spaces[space];
    if s.cells.contains_key(at) {
        assert(crate::reading::cell_in_place(s, m.clock, at));
    }
    let op = outcome(m, writer, req).op->0;
    law_cell_written(m, op, space, coords, value, derivation, k);
}

/// A definition of a rule takes effect where none stands under its id, or where the one
/// that stands has a lesser Lamport time, or the same and a writer that sorts earlier.
/// Then exactly the rule under its id becomes the defined one. Cells, provenance and
/// dimensions stay in any case.
pub proof fn law_rule_written(m: MachineView, op: StampedView, space: Text, rule: RuleView)
    requires
        op.inner == (OpView::DefineRule { space, rule }),
        m.spaces.contains_key(space),
    ensures
        ({
            let s = m.spaces[space];
            let t = applied(m, op).spaces[space];
            let wins = !s.rule_stamps.contains_key(rule.id) || s.rule_stamps[rule.id].lamport
                < op.lamport || (s.rule_stamps[rule.id].lamport == op.lamport && text_lt(
                s.rule_stamps[rule.id].writer,
                op.writer,
            ));
            &&& t.cells == s.cells && t.derived == s.derived && t.dimensions == s.dimensions
            &&& wins ==> t.rules == s.rules.insert(rule.id, rule)
            &&& wins ==> t.rule_stamps.contains_key(rule.id) && t.rule_stamps[rule.id].lamport
                == op.lamport && t.rule_stamps[rule.id].writer == op.writer
            &&& !wins ==> t.rules == s.rules && t.rule_stamps == s.rule_stamps
        }),
{
    lemma_dimensions_left(m.spaces[space], op);
}

/// A dimension that is added stands under its name with its kind, and without a coordinate
/// where nothing was known of it. One that was declared by an earlier op, or is there from
/// birth, keeps its kind; one that was declared by a later op takes the kind of the earlier.
/// Coordinates, other dimensions, cells and rules stay.
pub proof fn law_dimension_added(
    m: MachineView,
    op: StampedView,
    space: Text,
    name: Text,
    kind: Text,
    d: Text,
)
    requires
        op.inner == (OpView::AddDimension { space, name, kind }),
        m.spaces.contains_key(space),
    ensures
        ({
            let s = m.spaces[space];
            let t = applied(m, op).spaces[space];
            let older = match s.dimensions[name].kind_from {
                OriginView::Birth => true,
                OriginView::Op { stamp } => stamp.lamport < op.lamport || (stamp.lamport
                    == op.lamport && !text_lt(op.writer, stamp.writer)),
            };
            &&& t.cells == s.cells && t.derived == s.derived && t.rules == s.rules
            &&& d != name ==> t.dimensions.get(d) == s.dimensions.get(d)
            &&& t.dimensions.contains_key(name)
            &&& !s.dimensions.contains_key(name) ==> t.dimensions[name].kind == kind
            &&& !s.dimensions.contains_key(name) && !s.waiting.contains_key(name)
                ==> t.dimensions[name].name == name && t.dimensions[name].coords.len() == 0
            &&& s.dimensions.contains_key(name) ==> t.dimensions[name].name
                == s.dimensions[name].name && t.dimensions[name].coords
                == s.dimensions[name].coords && t.dimensions[name].kind == (if older {
                s.dimensions[name].kind
            } else {
                kind
            })
            &&& !s.dimensions.contains_key(name) && s.waiting.contains_key(name)
                ==> t.dimensions[name].coords == s.waiting[name].coords
        }),
{
    let s = m.spaces[space];
    assert(kinds_of(op).contains_key(name) && kinds_of(op)[name] == kind);
    assert(!keys_of(op).contains_key(name));
    lemma_known_after(s, op, name);
    lemma_known_after(s, op, d);
}

/// Creating a space for which ops came early makes the space that they have made.
pub proof fn law_space_created_late(m: MachineView, op: StampedView, space: Text)
    requires
        op.inner == (OpView::CreateSpace { space }),
        !m.spaces.contains_key(space),
        m.waiting.contains_key(space),
    ensures
        applied(m, op).spaces == m.spaces.insert(space, m.waiting[space]),
        !applied(m, op).waiting.contains_key(space),
{
    lemma_dimensions_left(m.waiting[space], op);
}

/// A coordinate that is added declares no dimension and changes no kind; other dimensions,
/// cells, provenance and rules stay. Added to a dimension that is not declared, it waits.
pub proof fn law_coordinate_added(
    m: MachineView,
    op: StampedView,
    space: Text,
    dimension: Text,
    key: Text,
    d: Text,
)
    requires
        op.inner == (OpView::AddCoordinate { space, dimension, key }),
        m.spaces.contains_key(space),
    ensures
        ({
            let s = m.spaces[space];
            let t = applied(m, op).spaces[space];
            &&& t.cells == s.cells && t.derived == s.derived && t.rules == s.rules
            &&& t.dimensions.contains_key(d) <==> s.dimensions.contains_key(d)
            &&& t.dimensions.contains_key(d) ==> t.dimensions[d].name == s.dimensions[d].name
                && t.dimensions[d].kind == s.dimensions[d].kind
            &&& d != dimension ==> t.dimensions.get(d) == s.dimensions.get(d)
            &&& !s.dimensions.contains_key(dimension) ==> t.waiting.contains_key(dimension)
        }),
{
    let s = m.spaces[space];
    assert(keys_of(op).contains_key(dimension));
    assert(!kinds_of(op).contains_key(dimension) && !kinds_of(op).contains_key(d));
    lemma_known_after(s, op, dimension);
    lemma_known_after(s, op, d);
}

/// An op that writes a cell declares the dimensions of its address, as dimensions of strings
/// where they were not; one that was declared by an earlier op, or is there from birth, keeps
/// its kind. No other dimension is declared or changes.
pub proof fn law_address_declared(
    m: MachineView,
    op: StampedView,
    space: Text,
    coords: CoordsView,
    d: Text,
)
    requires
        op.inner matches OpView::SetCell { space: s, coords: c, .. } && s == space && c == coords
            || (op.inner matches OpView::ClearCell { space: s, coords: c } && s == space && c
            == coords) || (op.inner matches OpView::SetDerived { space: s, coords: c, .. } && s
            == space && c == coords),
        m.spaces.contains_key(space),
    ensures
        ({
            let s = m.spaces[space];
            let t = applied(m, op).spaces[space];
            let older = match s.dimensions[d].kind_from {
                OriginView::Birth => true,
                OriginView::Op { stamp } => stamp.lamport < op.lamport || (stamp.lamport
                    == op.lamport && !text_lt(op.writer, stamp.writer)),
            };
            &&& t.dimensions.contains_key(d) <==> s.dimensions.contains_key(d)
                || coords.contains_key(d)
            &&& !coords.contains_key(d) ==> t.dimensions.get(d) == s.dimensions.get(d)
            &&& coords.contains_key(d) && s.dimensions.contains_key(d) ==> t.dimensions[d].kind == (
            if older {
                s.dimensions[d].kind
            } else {
                "string"@
            })
            &&& coords.contains_key(d) && !s.dimensions.contains_key(d) ==> t.dimensions[d].kind
                == "string"@
        }),
{
    lemma_known_after(m.spaces[space], op, d);
}

/// The coordinates of a dimension after an op are those that were known of it before, and
/// the one that the op brings to it: the key of an added coordinate, or the coordinate in
/// the address of a written cell. No coordinate goes, and no other comes.
pub proof fn law_coordinates_kept(m: MachineView, op: StampedView, space: Text, d: Text, c: Text)
    requires
        sound(m),
        finite_op(op.inner),
        space_of(op.inner) == space,
        m.spaces.contains_key(space),
        applied(m, op).spaces[space].dimensions.contains_key(d),
    ensures
        ({
            let s = m.spaces[space];
            let before = if s.dimensions.contains_key(d) {
                s.dimensions[d].coords.contains(c)
            } else {
                s.waiting.contains_key(d) && s.waiting[d].coords.contains(c)
            };
            let brought = match op.inner {
                OpView::AddCoordinate { dimension, key, .. } => dimension == d && key == c,
                OpView::SetCell { coords, .. } => coords.contains_key(d) && coords[d] == c,
                OpView::ClearCell { coords, .. } => coords.contains_key(d) && coords[d] == c,
                OpView::SetDerived { coords, .. } => coords.contains_key(d) && coords[d] == c,
                _ => false,
            };
            applied(m, op).spaces[space].dimensions[d].coords.contains(c) <==> before || brought
        }),
{
    let s = m.spaces[space];
    let n = applied(m, op);
    let x = known_dimension(s, d);
    lemma_known_after(s, op, d);
    law_sound_kept(m, op);
    assert(n.spaces.contains_key(space));
    let y = n.spaces[space].dimensions[d];
    lemma_listed_iff(y, d, n.clock, c);
    crate::reading::lemma_bare_sound(d, m.clock);
    assert(dimension_sound(x, d, m.clock));
    lemma_listed_iff(x, d, m.clock, c);
    if !crate::convergence::touches(op, d) {
        assert(n.spaces[space].dimensions.get(d) == s.dimensions.get(d));
        assert(y == s.dimensions[d]);
    }
}

/// The coordinates of a dimension stand by where they come from: what is there from birth
/// first, then by the Lamport time of the op that brought them first, then by its writer,
/// and those of one op by name.
pub proof fn law_coordinates_in_order(m: MachineView, space: Text, d: Text, i: int, j: int)
    requires
        sound(m),
        m.spaces.contains_key(space),
        m.spaces[space].dimensions.contains_key(d),
        0 <= i < j < m.spaces[space].dimensions[d].coords.len(),
    ensures
        ({
            let x = m.spaces[space].dimensions[d];
            let a = x.coords[i];
            let b = x.coords[j];
            match x.origins[a] {
                OriginView::Birth => x.origins[b] is Op || text_lt(a, b),
                OriginView::Op { stamp } => x.origins[b] matches OriginView::Op { stamp: later }
                    && (stamp.lamport < later.lamport || (stamp.lamport == later.lamport && (
                text_lt(stamp.writer, later.writer) || (stamp.writer == later.writer && text_lt(
                    a,
                    b,
                ))))),
            }
        }),
{
    let x = m.spaces[space].dimensions[d];
    assert(dimension_sound(x, d, m.clock));
}

/// A sound space has its representation axis, with the raw plane in front; every dimension,
/// rule and cell stands under its own name; no cell is stamped past the clock; every
/// coordinate of an address is one of its dimension; and provenance stands only with a live
/// cell.
pub proof fn law_sound_space(m: MachineView, space: Text, k: Text, d: Text)
    requires
        sound(m),
        m.spaces.contains_key(space),
    ensures
        ({
            let s = m.spaces[space];
            &&& s.name == space
            &&& s.dimensions.contains_key("representation"@)
            &&& s.dimensions["representation"@].coords.len() > 0
            &&& s.dimensions["representation"@].coords[0] == "raw"@
            &&& s.dimensions.contains_key(k) ==> s.dimensions[k].name == k
            &&& s.rules.contains_key(k) ==> s.rules[k].id == k
            &&& s.cells.contains_key(k) ==> canonical_key(s.cells[k].coords) == k
                && s.cells[k].lamport <= m.clock && s.cells[k].coords.dom().finite()
            &&& s.cells.contains_key(k) && s.cells[k].coords.contains_key(d)
                ==> s.dimensions.contains_key(d) && s.dimensions[d].coords.contains(
                s.cells[k].coords[d],
            )
            &&& s.derived.contains_key(k) ==> s.cells.contains_key(k) && s.cells[k].value is Some
        }),
{
    let s = m.spaces[space];
    if s.cells.contains_key(k) {
        assert(crate::reading::cell_in_place(s, m.clock, k));
    }
}

} // verus!
