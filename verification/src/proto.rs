//! The grid wire protocol: one request/response surface. Handling a request is
//! routing it onto the `SpaceMachine`; mutations come back as stamped ops for the
//! caller to append to the replicated log.

use vstd::prelude::*;

use crate::json::{json_at, Json};
use crate::sorted_map::{duplicate_all, key_order, values_in_order, views, Duplicate};
use crate::space::{
    applied, canonical_key, cell_key, lemma_filter_step, resolved, sliced, view_opt, Cell,
    CellView, Coords, CoordsView, Derivation, DerivationView, DimensionView, MachineView, Op,
    OpView, Rule, RuleView, Space, SpaceMachine, SpaceView, Stamped, StampedView, Value, ValueView,
};
use crate::text::{concat, Text};

verus! {

/// The parameters of an analysis: JSON, and beside it its member `labels` where it has
/// one, each as it was read from the bytes in which they came.
#[derive(Debug, Clone, PartialEq)]
pub struct Params {
    pub json: Json,
    pub labels: Option<Json>,
}

/// What `Params` stand for.
#[verifier::ext_equal]
pub struct ParamsView {
    pub json: Text,
    pub labels: Option<Text>,
}

impl View for Params {
    type V = ParamsView;

    open spec fn view(&self) -> ParamsView {
        ParamsView { json: self.json@, labels: view_opt(self.labels) }
    }
}

/// The parameters that stand at a path in the JSON in bytes, where something stands there.
pub open spec fn params_at(raw: Seq<u8>, pointer: Text) -> Option<ParamsView> {
    match json_at(raw, pointer) {
        Some(json) => Some(ParamsView { json, labels: json_at(raw, pointer + "/labels"@) }),
        None => None,
    }
}

impl Params {
    /// Read the parameters that stand at a path in the JSON in bytes. The path is a JSON
    /// pointer; the empty one stands for all of the JSON.
    pub fn read_at(raw: &[u8], pointer: &str) -> (r: Option<Params>)
        ensures
            view_opt(r) == params_at(raw@, pointer@),
    {
        match Json::read_at(raw, pointer) {
            Some(json) => {
                let labels = Json::read_at(raw, concat(pointer, "/labels").as_str());
                Some(Params { json, labels })
            },
            None => None,
        }
    }
}

/// A request to a grid instance.
#[derive(Debug, Clone)]
pub enum Request {
    /// List space names.
    Spaces,
    /// Describe one space: dimensions, coordinates, rules, cell count.
    Describe { space: String },
    CreateSpace { space: String },
    AddDimension { space: String, name: String, kind: String },
    AddCoordinate { space: String, dimension: String, key: String },
    SetCell { space: String, coords: Coords, value: Value },
    ClearCell { space: String, coords: Coords },
    /// Resolve the most specific cell at a point (subspace spanning applies).
    Get { space: String, coords: Coords },
    /// All live cells compatible with `fixed`.
    Slice { space: String, fixed: Coords },
    DefineRule { space: String, rule: Rule },
    /// Written by converters and analyzers: a derived cell with provenance.
    SetDerived { space: String, coords: Coords, value: Value, derivation: Derivation },
    /// List the derivation rules of a space.
    Rules { space: String },
    /// Run pending derivations for a space (optionally one rule) by calling
    /// converters over the mesh. `handle` turns it down; the service takes it
    /// before.
    Materialize { space: String, rule: Option<String> },
    /// Run an analysis op (compare, classify, summarize, check) over a slice via
    /// the analysis service. `handle` turns it down; the service takes it before.
    Analyze { space: String, op: String, fixed: Coords, params: Option<Params> },
}

/// What a `Request` stands for.
#[verifier::ext_equal]
pub enum RequestView {
    Spaces,
    Describe { space: Text },
    CreateSpace { space: Text },
    AddDimension { space: Text, name: Text, kind: Text },
    AddCoordinate { space: Text, dimension: Text, key: Text },
    SetCell { space: Text, coords: CoordsView, value: ValueView },
    ClearCell { space: Text, coords: CoordsView },
    Get { space: Text, coords: CoordsView },
    Slice { space: Text, fixed: CoordsView },
    DefineRule { space: Text, rule: RuleView },
    SetDerived { space: Text, coords: CoordsView, value: ValueView, derivation: DerivationView },
    Rules { space: Text },
    Materialize { space: Text, rule: Option<Text> },
    Analyze { space: Text, op: Text, fixed: CoordsView, params: Option<ParamsView> },
}

impl View for Request {
    type V = RequestView;

    open spec fn view(&self) -> RequestView {
        match *self {
            Request::Spaces => RequestView::Spaces,
            Request::Describe { space } => RequestView::Describe { space: space@ },
            Request::CreateSpace { space } => RequestView::CreateSpace { space: space@ },
            Request::AddDimension { space, name, kind } => RequestView::AddDimension {
                space: space@,
                name: name@,
                kind: kind@,
            },
            Request::AddCoordinate { space, dimension, key } => RequestView::AddCoordinate {
                space: space@,
                dimension: dimension@,
                key: key@,
            },
            Request::SetCell { space, coords, value } => RequestView::SetCell {
                space: space@,
                coords: coords@,
                value: value@,
            },
            Request::ClearCell { space, coords } => RequestView::ClearCell {
                space: space@,
                coords: coords@,
            },
            Request::Get { space, coords } => RequestView::Get { space: space@, coords: coords@ },
            Request::Slice { space, fixed } => RequestView::Slice { space: space@, fixed: fixed@ },
            Request::DefineRule { space, rule } => RequestView::DefineRule {
                space: space@,
                rule: rule@,
            },
            Request::SetDerived { space, coords, value, derivation } => RequestView::SetDerived {
                space: space@,
                coords: coords@,
                value: value@,
                derivation: derivation@,
            },
            Request::Rules { space } => RequestView::Rules { space: space@ },
            Request::Materialize { space, rule } => RequestView::Materialize {
                space: space@,
                rule: view_opt(rule),
            },
            Request::Analyze { space, op, fixed, params } => RequestView::Analyze {
                space: space@,
                op: op@,
                fixed: fixed@,
                params: view_opt(params),
            },
        }
    }
}

/// One dimension in the description of a space.
#[derive(Debug, Clone)]
pub struct DimensionInfo {
    pub name: String,
    pub kind: String,
    pub coords: Vec<String>,
}

/// What a `DimensionInfo` stands for.
#[verifier::ext_equal]
pub struct DimensionInfoView {
    pub name: Text,
    pub kind: Text,
    pub coords: Seq<Text>,
}

impl View for DimensionInfo {
    type V = DimensionInfoView;

    open spec fn view(&self) -> DimensionInfoView {
        DimensionInfoView {
            name: self.name@,
            kind: self.kind@,
            coords: views(self.coords@),
        }
    }
}

/// The description of a space.
#[derive(Debug, Clone)]
pub struct SpaceInfo {
    pub name: String,
    pub dimensions: Vec<DimensionInfo>,
    pub rules: Vec<Rule>,
    pub cells: usize,
}

/// What a `SpaceInfo` stands for.
#[verifier::ext_equal]
pub struct SpaceInfoView {
    pub name: Text,
    pub dimensions: Seq<DimensionInfoView>,
    pub rules: Seq<RuleView>,
    pub cells: nat,
}

impl View for SpaceInfo {
    type V = SpaceInfoView;

    open spec fn view(&self) -> SpaceInfoView {
        SpaceInfoView {
            name: self.name@,
            dimensions: views(self.dimensions@),
            rules: views(self.rules@),
            cells: self.cells as nat,
        }
    }
}

/// The reply to a request.
#[derive(Debug, Clone)]
pub enum Response {
    /// The mutation was applied.
    Done,
    Spaces { spaces: Vec<String> },
    Space { info: SpaceInfo },
    Cell { cell: Option<Cell>, key: Option<String> },
    Cells { cells: Vec<Cell> },
    Rules { rules: Vec<Rule> },
    Materialized { written: usize, skipped: usize, failed: usize },
    Analysis { result: Json },
    Error { error: String },
}

/// What a `Response` stands for.
#[verifier::ext_equal]
pub enum ResponseView {
    /// The mutation was applied.
    Done,
    Spaces { spaces: Seq<Text> },
    Space { info: SpaceInfoView },
    Cell { cell: Option<CellView>, key: Option<Text> },
    Cells { cells: Seq<CellView> },
    Rules { rules: Seq<RuleView> },
    Materialized { written: nat, skipped: nat, failed: nat },
    Analysis { result: Text },
    Error { error: Text },
}

impl View for Response {
    type V = ResponseView;

    open spec fn view(&self) -> ResponseView {
        match *self {
            Response::Done => ResponseView::Done,
            Response::Spaces { spaces } => ResponseView::Spaces { spaces: views(spaces@) },
            Response::Space { info } => ResponseView::Space { info: info@ },
            Response::Cell { cell, key } => ResponseView::Cell {
                cell: view_opt(cell),
                key: view_opt(key),
            },
            Response::Cells { cells } => ResponseView::Cells { cells: views(cells@) },
            Response::Rules { rules } => ResponseView::Rules { rules: views(rules@) },
            Response::Materialized { written, skipped, failed } => ResponseView::Materialized {
                written: written as nat,
                skipped: skipped as nat,
                failed: failed as nat,
            },
            Response::Analysis { result } => ResponseView::Analysis { result: result@ },
            Response::Error { error } => ResponseView::Error { error: error@ },
        }
    }
}

/// Outcome of handling a request: the response to send back, plus any stamped op
/// that the caller must append to the replicated log (already applied locally).
#[derive(Debug, Clone)]
pub struct Handled {
    pub response: Response,
    pub op: Option<Stamped>,
}

/// What a `Handled` stands for.
#[verifier::ext_equal]
pub struct HandledView {
    pub response: ResponseView,
    pub op: Option<StampedView>,
}

impl View for Handled {
    type V = HandledView;

    open spec fn view(&self) -> HandledView {
        HandledView {
            response: self.response@,
            op: view_opt(self.op),
        }
    }
}

impl Response {
    /// An error reply.
    pub fn error(msg: String) -> (r: Response)
        ensures
            r@ == (ResponseView::Error { error: msg@ }),
    {
        Response::Error { error: msg }
    }
}

impl Handled {
    fn read(response: Response) -> (h: Handled)
        ensures
            h@ == (HandledView { response: response@, op: None }),
    {
        Handled { response, op: None }
    }

    fn refuse(msg: String) -> (h: Handled)
        ensures
            h@ == (HandledView { response: ResponseView::Error { error: msg@ }, op: None }),
    {
        Handled::read(Response::error(msg))
    }
}

/// The kind of a dimension that is added without one.
pub fn default_kind() -> (kind: String)
    ensures
        kind@ == "string"@,
{
    "string".to_string()
}

/// The complaint about a space that is not there.
pub open spec fn no_such_space(m: MachineView, space: Text) -> Option<Text> {
    if m.spaces.contains_key(space) {
        None
    } else {
        Some("no such space: "@ + space)
    }
}

/// Why a request is turned down, where it is.
pub open spec fn objection(m: MachineView, req: RequestView) -> Option<Text> {
    match req {
        RequestView::Spaces => None,
        RequestView::Get { .. } => None,
        RequestView::Describe { space } => no_such_space(m, space),
        RequestView::Slice { space, .. } => no_such_space(m, space),
        RequestView::Rules { space } => no_such_space(m, space),
        RequestView::CreateSpace { space } => if space.len() == 0 {
            Some("space name must not be empty"@)
        } else {
            None
        },
        RequestView::AddDimension { space, .. } => no_such_space(m, space),
        RequestView::AddCoordinate { space, dimension, .. } => if m.spaces.contains_key(space)
            && m.spaces[space].dimensions.contains_key(dimension) {
            None
        } else {
            Some("no such dimension: "@ + space + "/"@ + dimension)
        },
        RequestView::SetCell { space, coords, .. } => if !m.spaces.contains_key(space) {
            no_such_space(m, space)
        } else if coords == Map::<Text, Text>::empty() {
            Some("coords must fix at least one dimension"@)
        } else {
            None
        },
        RequestView::ClearCell { space, .. } => no_such_space(m, space),
        RequestView::DefineRule { space, rule } => if !m.spaces.contains_key(space) {
            no_such_space(m, space)
        } else if rule.id.len() == 0 {
            Some("rule id must not be empty"@)
        } else {
            None
        },
        RequestView::SetDerived { space, coords, .. } => if !m.spaces.contains_key(space) {
            no_such_space(m, space)
        } else if coords == Map::<Text, Text>::empty() {
            Some("coords must fix at least one dimension"@)
        } else {
            None
        },
        RequestView::Materialize { .. } => Some(
            "materialize/analyze need the mesh and are handled by the daemon"@,
        ),
        RequestView::Analyze { .. } => Some(
            "materialize/analyze need the mesh and are handled by the daemon"@,
        ),
    }
}

/// The op that a request asks for, where it asks for one.
pub open spec fn requested_op(req: RequestView) -> Option<OpView> {
    match req {
        RequestView::CreateSpace { space } => Some(OpView::CreateSpace { space }),
        RequestView::AddDimension { space, name, kind } => Some(
            OpView::AddDimension { space, name, kind },
        ),
        RequestView::AddCoordinate { space, dimension, key } => Some(
            OpView::AddCoordinate { space, dimension, key },
        ),
        RequestView::SetCell { space, coords, value } => Some(
            OpView::SetCell { space, coords, value },
        ),
        RequestView::ClearCell { space, coords } => Some(OpView::ClearCell { space, coords }),
        RequestView::DefineRule { space, rule } => Some(OpView::DefineRule { space, rule }),
        RequestView::SetDerived { space, coords, value, derivation } => Some(
            OpView::SetDerived { space, coords, value, derivation },
        ),
        _ => None,
    }
}

/// How many cells of a space are live.
pub open spec fn live_cells(s: SpaceView) -> nat {
    values_in_order(s.cells).filter(|c: CellView| c.value is Some).len()
}

/// What there is to say of a space.
pub open spec fn description(s: SpaceView) -> SpaceInfoView {
    SpaceInfoView {
        name: s.name,
        dimensions: values_in_order(s.dimensions).map_values(
            |d: DimensionView|
                DimensionInfoView { name: d.name, kind: d.kind, coords: d.coords },
        ),
        rules: values_in_order(s.rules),
        cells: live_cells(s),
    }
}

/// The answer to a read that meets no objection.
pub open spec fn answer(m: MachineView, req: RequestView) -> ResponseView {
    match req {
        RequestView::Spaces => ResponseView::Spaces { spaces: key_order(m.spaces.dom()) },
        RequestView::Describe { space } => ResponseView::Space {
            info: description(m.spaces[space]),
        },
        RequestView::Get { space, coords } => {
            let cell = resolved(m, space, coords);
            ResponseView::Cell {
                cell,
                key: match cell {
                    Some(c) => Some(canonical_key(c.coords)),
                    None => None,
                },
            }
        },
        RequestView::Slice { space, fixed } => ResponseView::Cells {
            cells: sliced(m, space, fixed),
        },
        RequestView::Rules { space } => ResponseView::Rules {
            rules: values_in_order(m.spaces[space].rules),
        },
        _ => ResponseView::Done,
    }
}

/// The next local stamp on an op.
pub open spec fn next_stamped(m: MachineView, writer: Text, op: OpView) -> StampedView {
    StampedView { lamport: (m.clock + 1) as u64, writer, inner: op }
}

/// What comes of a request: a refusal changes nothing and yields no op; a
/// mutation yields the op that it was stamped into; a read yields its answer.
pub open spec fn outcome(m: MachineView, writer: Text, req: RequestView) -> HandledView {
    match objection(m, req) {
        Some(error) => HandledView { response: ResponseView::Error { error }, op: None },
        None => match requested_op(req) {
            Some(op) => HandledView {
                response: ResponseView::Done,
                op: Some(next_stamped(m, writer, op)),
            },
            None => HandledView { response: answer(m, req), op: None },
        },
    }
}

/// The machine after a request: the op that came of it, applied.
pub open spec fn machine_after(m: MachineView, op: Option<StampedView>) -> MachineView {
    match op {
        Some(op) => applied(m, op),
        None => m,
    }
}

/// Will a request go on to stamp an op?
pub open spec fn will_stamp(m: MachineView, req: RequestView) -> bool {
    objection(m, req) is None && requested_op(req) is Some
}

fn missing_space(space: &str) -> (h: Handled)
    ensures
        h@ == (HandledView {
            response: ResponseView::Error { error: "no such space: "@ + space@ },
            op: None,
        }),
{
    Handled::refuse(concat("no such space: ", space))
}

fn duplicate_refs(items: &Vec<&Cell>) -> (copy: Vec<Cell>)
    ensures
        views(copy@) == views(items@),
{
    let mut copy: Vec<Cell> = Vec::new();
    let mut i: usize = 0;
    while i < items.len()
        invariant
            i <= items.len(),
            copy.len() == i,
            forall|j: int| 0 <= j < i ==> (#[trigger] copy@[j])@ == items@[j]@,
        decreases items.len() - i,
    {
        copy.push(items[i].duplicate());
        i += 1;
    }
    assert(views(copy@) =~= views(items@));
    copy
}

fn describe(s: &Space) -> (info: SpaceInfo)
    ensures
        info@ == description(s@),
{
    let mut dimensions: Vec<DimensionInfo> = Vec::new();
    let n: usize = s.dimensions.len();
    let ghost all = values_in_order(s@.dimensions);
    let mut i: usize = 0;
    while i < n
        invariant
            i <= n,
            n == key_order(s@.dimensions.dom()).len(),
            all == values_in_order(s@.dimensions),
            dimensions.len() == i,
            forall|j: int|
                0 <= j < i ==> (#[trigger] dimensions@[j])@ == (DimensionInfoView {
                    name: all[j].name,
                    kind: all[j].kind,
                    coords: all[j].coords,
                }),
        decreases n - i,
    {
        let d = s.dimensions.value_at(i);
        dimensions.push(
            DimensionInfo {
                name: d.name.clone(),
                kind: d.kind.clone(),
                coords: duplicate_all(&d.coords),
            },
        );
        i += 1;
    }
    assert(views(dimensions@) =~= description(s@).dimensions);
    SpaceInfo {
        name: s.name.clone(),
        dimensions,
        rules: s.rules.values(),
        cells: count_live(s),
    }
}

fn count_live(s: &Space) -> (live: usize)
    ensures
        live == live_cells(s@),
{
    let n: usize = s.cells.len();
    let ghost all = values_in_order(s@.cells);
    let ghost keep = |c: CellView| c.value is Some;
    let mut live: usize = 0;
    let mut i: usize = 0;
    proof {
        assert(all.take(0) =~= Seq::<CellView>::empty());
        reveal(Seq::filter);
    }
    while i < n
        invariant
            i <= n,
            n == key_order(s@.cells.dom()).len(),
            all == values_in_order(s@.cells),
            keep == (|c: CellView| c.value is Some),
            live == all.take(i as int).filter(keep).len(),
            live <= i,
        decreases n - i,
    {
        proof {
            lemma_filter_step(all, keep, i as int);
        }
        if s.cells.value_at(i).value.is_some() {
            live += 1;
        }
        i += 1;
    }
    assert(all.take(n as int) =~= all);
    live
}

/// Route one request onto the machine. `writer` identifies this replica in
/// tie-breaks. Mutations are stamped and applied here; the caller owns durability
/// and replication of the op that comes back.
pub fn handle(m: &mut SpaceMachine, writer: &str, req: Request) -> (h: Handled)
    requires
        will_stamp(old(m)@, req@) ==> old(m).clock < u64::MAX,
    ensures
        h@ == outcome(old(m)@, writer@, req@),
        final(m)@ == machine_after(old(m)@, h@.op),
{
    match req {
        Request::Spaces => { Handled::read(Response::Spaces { spaces: m.spaces.keys() }) },
        Request::Describe { space } => match m.spaces.get(space.as_str()) {
            Some(s) => Handled::read(Response::Space { info: describe(s) }),
            None => missing_space(space.as_str()),
        },
        Request::Get { space, coords } => {
            let (cell, key) = match m.get(space.as_str(), &coords) {
                Some(c) => (Some(c.duplicate()), Some(cell_key(&c.coords))),
                None => (None, None),
            };
            Handled::read(Response::Cell { cell, key })
        },
        Request::Slice { space, fixed } => {
            if !m.spaces.contains_key(space.as_str()) {
                return missing_space(space.as_str());
            }
            let cells = duplicate_refs(&m.slice(space.as_str(), &fixed));
            Handled::read(Response::Cells { cells })
        },
        Request::Rules { space } => match m.spaces.get(space.as_str()) {
            Some(s) => Handled::read(Response::Rules { rules: s.rules.values() }),
            None => missing_space(space.as_str()),
        },
        Request::CreateSpace { space } => {
            if space.as_str().is_empty() {
                return Handled::refuse("space name must not be empty".to_string());
            }
            mutate(m, writer, Op::CreateSpace { space })
        },
        Request::AddDimension { space, name, kind } => {
            if !m.spaces.contains_key(space.as_str()) {
                return missing_space(space.as_str());
            }
            mutate(m, writer, Op::AddDimension { space, name, kind })
        },
        Request::AddCoordinate { space, dimension, key } => {
            let has_dim = match m.spaces.get(space.as_str()) {
                Some(s) => s.dimensions.contains_key(dimension.as_str()),
                None => false,
            };
            if !has_dim {
                let named = concat("no such dimension: ", space.as_str());
                let slashed = concat(named.as_str(), "/");
                return Handled::refuse(concat(slashed.as_str(), dimension.as_str()));
            }
            mutate(m, writer, Op::AddCoordinate { space, dimension, key })
        },
        Request::SetCell { space, coords, value } => {
            if !m.spaces.contains_key(space.as_str()) {
                return missing_space(space.as_str());
            }
            if coords.is_empty() {
                return Handled::refuse("coords must fix at least one dimension".to_string());
            }
            mutate(m, writer, Op::SetCell { space, coords, value })
        },
        Request::ClearCell { space, coords } => {
            if !m.spaces.contains_key(space.as_str()) {
                return missing_space(space.as_str());
            }
            mutate(m, writer, Op::ClearCell { space, coords })
        },
        Request::DefineRule { space, rule } => {
            if !m.spaces.contains_key(space.as_str()) {
                return missing_space(space.as_str());
            }
            if rule.id.as_str().is_empty() {
                return Handled::refuse("rule id must not be empty".to_string());
            }
            mutate(m, writer, Op::DefineRule { space, rule })
        },
        Request::SetDerived { space, coords, value, derivation } => {
            if !m.spaces.contains_key(space.as_str()) {
                return missing_space(space.as_str());
            }
            if coords.is_empty() {
                return Handled::refuse("coords must fix at least one dimension".to_string());
            }
            mutate(m, writer, Op::SetDerived { space, coords, value, derivation })
        },
        Request::Materialize { .. } => Handled::refuse(
            "materialize/analyze need the mesh and are handled by the daemon".to_string(),
        ),
        Request::Analyze { .. } => Handled::refuse(
            "materialize/analyze need the mesh and are handled by the daemon".to_string(),
        ),
    }
}

fn mutate(m: &mut SpaceMachine, writer: &str, op: Op) -> (h: Handled)
    requires
        old(m).clock < u64::MAX,
    ensures
        h@ == (HandledView {
            response: ResponseView::Done,
            op: Some(next_stamped(old(m)@, writer@, op@)),
        }),
        final(m)@ == applied(old(m)@, next_stamped(old(m)@, writer@, op@)),
{
    let stamped = m.stamp(writer, op);
    m.apply(&stamped);
    Handled { response: Response::Done, op: Some(stamped) }
}

} // verus!
