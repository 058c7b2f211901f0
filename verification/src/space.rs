//! The N-dimensional space model.
//!
//! A space is a sparse coordinate system: named dimensions, cells addressed by
//! coordinate tuples. A cell addressed by a subset of the dimensions applies to
//! the whole subspace it spans. Every mutation is a stamped `Op`; `apply` is
//! idempotent and order-convergent (last writer wins per cell point and per rule, by
//! Lamport time, with the writer id as tie-break), so replicas that see the same op
//! set reach the same state.

use vstd::prelude::*;

use crate::json::Json;
use crate::origin::{
    earlier, lemma_listing, list_in_order, listing, lists_in_order, stamp_beats, Origin,
    OriginView, Stamp, StampView,
};
use crate::sorted_map::{
    duplicate_all, key_order, lemma_key_order_lists, lists, values_in_order, views, Duplicate,
    SortedMap,
};
use crate::text::{
    concat, cut_once, join, join_text, lemma_text_lt_irreflexive, same_text, sorts_before,
    split_once, text_lt, Text,
};

verus! {

/// The built-in representation dimension: the shared plane lives here.
pub const REPRESENTATION: &'static str = "representation";

/// The coordinate on the representation axis where source data lives.
pub const RAW: &'static str = "raw";

/// A coordinate tuple: dimension name to coordinate key. Partial tuples are legal
/// and span the subspace of every unmentioned dimension.
pub type Coords = SortedMap<String>;

/// What a coordinate tuple stands for.
pub type CoordsView = Map<Text, Text>;

/// What an optional value stands for.
pub open spec fn view_opt<T: View>(o: Option<T>) -> Option<T::V> {
    match o {
        Some(t) => Some(t@),
        None => None,
    }
}

/// What a result stands for.
pub open spec fn view_result<T: View, E: View>(r: Result<T, E>) -> Result<T::V, E::V> {
    match r {
        Ok(t) => Ok(t@),
        Err(e) => Err(e@),
    }
}

/// A copy of an optional value.
pub fn duplicate_opt<T: Duplicate>(o: &Option<T>) -> (copy: Option<T>)
    ensures
        view_opt(copy) == view_opt(*o),
{
    match o {
        Some(t) => Some(t.duplicate()),
        None => None,
    }
}

/// A typed link to data living anywhere on the mesh. The payload is never
/// interpreted here; converters do that.
#[derive(Debug, Clone, PartialEq)]
pub struct Ref {
    /// blob | drive | db | twin | cap | topic | url
    pub scheme: String,
    /// Scheme-specific address, such as the content id for `blob`.
    pub address: String,
    /// Optional media or content hint, such as "video/mp4".
    pub content_hint: Option<String>,
    /// Optional pinned content-addressed snapshot for reproducible comparison.
    pub snapshot_cid: Option<String>,
}

/// What a `Ref` stands for.
#[verifier::ext_equal]
pub struct RefView {
    pub scheme: Text,
    pub address: Text,
    pub content_hint: Option<Text>,
    pub snapshot_cid: Option<Text>,
}

impl View for Ref {
    type V = RefView;

    open spec fn view(&self) -> RefView {
        RefView {
            scheme: self.scheme@,
            address: self.address@,
            content_hint: view_opt(self.content_hint),
            snapshot_cid: view_opt(self.snapshot_cid),
        }
    }
}

impl Duplicate for Ref {
    fn duplicate(&self) -> (copy: Self) {
        Ref {
            scheme: self.scheme.clone(),
            address: self.address.clone(),
            content_hint: duplicate_opt(&self.content_hint),
            snapshot_cid: duplicate_opt(&self.snapshot_cid),
        }
    }
}

/// One component of a vector: a 32-bit float, by its JSON text and by the JSON text of
/// the same number as a 64-bit float.
#[derive(Debug, Clone, PartialEq)]
pub struct Component {
    pub text: String,
    pub wide: String,
}

/// What a `Component` stands for.
#[verifier::ext_equal]
pub struct ComponentView {
    pub text: Text,
    pub wide: Text,
}

impl View for Component {
    type V = ComponentView;

    open spec fn view(&self) -> ComponentView {
        ComponentView { text: self.text@, wide: self.wide@ }
    }
}

impl Duplicate for Component {
    fn duplicate(&self) -> (copy: Self) {
        Component { text: self.text.clone(), wide: self.wide.clone() }
    }
}

/// What a cell holds.
#[derive(Debug, Clone, PartialEq)]
pub enum Value {
    Text { text: String },
    /// A number, by its JSON text.
    Number { number: String },
    Bool { bool: bool },
    /// Milliseconds since the Unix epoch.
    Timestamp { ms: i64 },
    Json { json: Json },
    /// A vector on the embedding plane.
    Vector { vector: Vec<Component> },
    Ref { r: Ref },
}

/// What a `Value` stands for.
#[verifier::ext_equal]
pub enum ValueView {
    Text { text: Text },
    Number { number: Text },
    Bool { bool: bool },
    Timestamp { ms: i64 },
    Json { json: Text },
    Vector { vector: Seq<ComponentView> },
    Ref { r: RefView },
}

impl View for Value {
    type V = ValueView;

    open spec fn view(&self) -> ValueView {
        match *self {
            Value::Text { text } => ValueView::Text { text: text@ },
            Value::Number { number } => ValueView::Number { number: number@ },
            Value::Bool { bool } => ValueView::Bool { bool },
            Value::Timestamp { ms } => ValueView::Timestamp { ms },
            Value::Json { json } => ValueView::Json { json: json@ },
            Value::Vector { vector } => ValueView::Vector { vector: views(vector@) },
            Value::Ref { r } => ValueView::Ref { r: r@ },
        }
    }
}

impl Duplicate for Value {
    fn duplicate(&self) -> (copy: Self) {
        match self {
            Value::Text { text } => Value::Text { text: text.duplicate() },
            Value::Number { number } => Value::Number { number: number.duplicate() },
            Value::Bool { bool } => Value::Bool { bool: *bool },
            Value::Timestamp { ms } => Value::Timestamp { ms: *ms },
            Value::Json { json } => Value::Json { json: json.duplicate() },
            Value::Vector { vector } => Value::Vector { vector: duplicate_all(vector) },
            Value::Ref { r } => Value::Ref { r: r.duplicate() },
        }
    }
}

/// A named axis of a space.
#[derive(Debug, Clone, PartialEq)]
pub struct Dimension {
    pub name: String,
    /// Free-form kind hint: "string" | "number" | "time" | "node" | ...
    pub kind: String,
    /// Coordinates in the order of the ops that brought them first, which is the order
    /// of their declaration. Coordinates also exist implicitly by appearing in a cell
    /// address.
    pub coords: Vec<String>,
    /// Where the kind comes from; that of the earliest declaration counts.
    pub kind_from: Origin,
    /// Where each coordinate comes from first.
    pub origins: SortedMap<Origin>,
}

/// What a `Dimension` stands for.
#[verifier::ext_equal]
pub struct DimensionView {
    pub name: Text,
    pub kind: Text,
    pub coords: Seq<Text>,
    pub kind_from: OriginView,
    pub origins: Map<Text, OriginView>,
}

impl View for Dimension {
    type V = DimensionView;

    open spec fn view(&self) -> DimensionView {
        DimensionView {
            name: self.name@,
            kind: self.kind@,
            coords: views(self.coords@),
            kind_from: self.kind_from@,
            origins: self.origins@,
        }
    }
}

impl Duplicate for Dimension {
    fn duplicate(&self) -> (copy: Self) {
        Dimension {
            name: self.name.clone(),
            kind: self.kind.clone(),
            coords: duplicate_all(&self.coords),
            kind_from: self.kind_from.duplicate(),
            origins: self.origins.duplicate(),
        }
    }
}

/// A derivation rule: project a slice at one representation onto another via a
/// converter located on the mesh.
#[derive(Debug, Clone, PartialEq)]
pub struct Rule {
    pub id: String,
    /// Dimensions fixed on the source slice (the representation is `raw` unless
    /// one is present here).
    pub source: Coords,
    /// Converter name, such as "grid.convert.text".
    pub converter: String,
    /// Target coordinate on the representation axis, such as "text".
    pub target_representation: String,
    /// Free-form converter parameters.
    pub params: Option<Json>,
}

/// What a `Rule` stands for.
#[verifier::ext_equal]
pub struct RuleView {
    pub id: Text,
    pub source: CoordsView,
    pub converter: Text,
    pub target_representation: Text,
    pub params: Option<Text>,
}

impl View for Rule {
    type V = RuleView;

    open spec fn view(&self) -> RuleView {
        RuleView {
            id: self.id@,
            source: self.source@,
            converter: self.converter@,
            target_representation: self.target_representation@,
            params: view_opt(self.params),
        }
    }
}

impl Duplicate for Rule {
    fn duplicate(&self) -> (copy: Self) {
        Rule {
            id: self.id.clone(),
            source: self.source.duplicate(),
            converter: self.converter.clone(),
            target_representation: self.target_representation.clone(),
            params: duplicate_opt(&self.params),
        }
    }
}

/// One stored cell with its stamp.
#[derive(Debug, Clone, PartialEq)]
pub struct Cell {
    pub coords: Coords,
    /// `None` is a tombstone: a cleared cell, kept for convergence.
    pub value: Option<Value>,
    pub lamport: u64,
    pub writer: String,
}

/// What a `Cell` stands for.
#[verifier::ext_equal]
pub struct CellView {
    pub coords: CoordsView,
    pub value: Option<ValueView>,
    pub lamport: u64,
    pub writer: Text,
}

impl View for Cell {
    type V = CellView;

    open spec fn view(&self) -> CellView {
        CellView {
            coords: self.coords@,
            value: view_opt(self.value),
            lamport: self.lamport,
            writer: self.writer@,
        }
    }
}

impl Duplicate for Cell {
    fn duplicate(&self) -> (copy: Self) {
        Cell {
            coords: self.coords.duplicate(),
            value: duplicate_opt(&self.value),
            lamport: self.lamport,
            writer: self.writer.clone(),
        }
    }
}

/// Provenance of a derived cell: which inputs produced it.
#[derive(Debug, Clone, PartialEq)]
pub struct Derivation {
    pub rule_id: String,
    pub converter: String,
    /// Content hash of (input, converter, params): the memoization key.
    pub input_key: String,
}

/// What a `Derivation` stands for.
#[verifier::ext_equal]
pub struct DerivationView {
    pub rule_id: Text,
    pub converter: Text,
    pub input_key: Text,
}

impl View for Derivation {
    type V = DerivationView;

    open spec fn view(&self) -> DerivationView {
        DerivationView {
            rule_id: self.rule_id@,
            converter: self.converter@,
            input_key: self.input_key@,
        }
    }
}

impl Duplicate for Derivation {
    fn duplicate(&self) -> (copy: Self) {
        Derivation {
            rule_id: self.rule_id.clone(),
            converter: self.converter.clone(),
            input_key: self.input_key.clone(),
        }
    }
}

/// One space.
#[derive(Debug, Clone, PartialEq)]
pub struct Space {
    pub name: String,
    pub dimensions: SortedMap<Dimension>,
    /// Canonical cell key to cell.
    pub cells: SortedMap<Cell>,
    pub rules: SortedMap<Rule>,
    /// Cell key to provenance, for cells written by derivation.
    pub derived: SortedMap<Derivation>,
    /// Rule id to the stamp of its definition.
    pub rule_stamps: SortedMap<Stamp>,
    /// Dimensions that are not declared yet, with the coordinates that came early.
    pub waiting: SortedMap<Dimension>,
}

/// What a `Space` stands for.
#[verifier::ext_equal]
pub struct SpaceView {
    pub name: Text,
    pub dimensions: Map<Text, DimensionView>,
    pub cells: Map<Text, CellView>,
    pub rules: Map<Text, RuleView>,
    pub derived: Map<Text, DerivationView>,
    pub rule_stamps: Map<Text, StampView>,
    pub waiting: Map<Text, DimensionView>,
}

impl View for Space {
    type V = SpaceView;

    open spec fn view(&self) -> SpaceView {
        SpaceView {
            name: self.name@,
            dimensions: self.dimensions@,
            cells: self.cells@,
            rules: self.rules@,
            derived: self.derived@,
            rule_stamps: self.rule_stamps@,
            waiting: self.waiting@,
        }
    }
}

impl Duplicate for Space {
    fn duplicate(&self) -> (copy: Self) {
        Space {
            name: self.name.clone(),
            dimensions: self.dimensions.duplicate(),
            cells: self.cells.duplicate(),
            rules: self.rules.duplicate(),
            derived: self.derived.duplicate(),
            rule_stamps: self.rule_stamps.duplicate(),
            waiting: self.waiting.duplicate(),
        }
    }
}

/// A mutation. Every op is stamped with a Lamport time and a writer before it
/// enters the replicated log.
#[derive(Debug, Clone, PartialEq)]
pub enum Op {
    CreateSpace { space: String },
    AddDimension { space: String, name: String, kind: String },
    AddCoordinate { space: String, dimension: String, key: String },
    SetCell { space: String, coords: Coords, value: Value },
    ClearCell { space: String, coords: Coords },
    DefineRule { space: String, rule: Rule },
    SetDerived { space: String, coords: Coords, value: Value, derivation: Derivation },
}

/// What an `Op` stands for.
#[verifier::ext_equal]
pub enum OpView {
    CreateSpace { space: Text },
    AddDimension { space: Text, name: Text, kind: Text },
    AddCoordinate { space: Text, dimension: Text, key: Text },
    SetCell { space: Text, coords: CoordsView, value: ValueView },
    ClearCell { space: Text, coords: CoordsView },
    DefineRule { space: Text, rule: RuleView },
    SetDerived { space: Text, coords: CoordsView, value: ValueView, derivation: DerivationView },
}

impl View for Op {
    type V = OpView;

    open spec fn view(&self) -> OpView {
        match *self {
            Op::CreateSpace { space } => OpView::CreateSpace { space: space@ },
            Op::AddDimension { space, name, kind } => OpView::AddDimension {
                space: space@,
                name: name@,
                kind: kind@,
            },
            Op::AddCoordinate { space, dimension, key } => OpView::AddCoordinate {
                space: space@,
                dimension: dimension@,
                key: key@,
            },
            Op::SetCell { space, coords, value } => OpView::SetCell {
                space: space@,
                coords: coords@,
                value: value@,
            },
            Op::ClearCell { space, coords } => OpView::ClearCell { space: space@, coords: coords@ },
            Op::DefineRule { space, rule } => OpView::DefineRule { space: space@, rule: rule@ },
            Op::SetDerived { space, coords, value, derivation } => OpView::SetDerived {
                space: space@,
                coords: coords@,
                value: value@,
                derivation: derivation@,
            },
        }
    }
}

/// A stamped op as it appears in the replicated log.
#[derive(Debug, Clone, PartialEq)]
pub struct Stamped {
    pub lamport: u64,
    pub writer: String,
    pub inner: Op,
}

/// What a `Stamped` stands for.
#[verifier::ext_equal]
pub struct StampedView {
    pub lamport: u64,
    pub writer: Text,
    pub inner: OpView,
}

impl View for Stamped {
    type V = StampedView;

    open spec fn view(&self) -> StampedView {
        StampedView {
            lamport: self.lamport,
            writer: self.writer@,
            inner: self.inner@,
        }
    }
}

/// The whole replicated state: all spaces on this log.
#[derive(Debug, Clone, PartialEq)]
pub struct SpaceMachine {
    pub spaces: SortedMap<Space>,
    /// Highest Lamport time observed, for stamping the next local op.
    pub clock: u64,
    /// Spaces that are not created yet, as the ops that came early have made them.
    pub waiting: SortedMap<Space>,
}

/// What a `SpaceMachine` stands for.
#[verifier::ext_equal]
pub struct MachineView {
    pub spaces: Map<Text, SpaceView>,
    pub clock: u64,
    pub waiting: Map<Text, SpaceView>,
}

impl View for SpaceMachine {
    type V = MachineView;

    open spec fn view(&self) -> MachineView {
        MachineView {
            spaces: self.spaces@,
            clock: self.clock,
            waiting: self.waiting@,
        }
    }
}

/// The link that `scheme:address` spells: both sides must be there.
pub open spec fn parsed_ref(s: Text) -> Option<RefView> {
    match split_once(s, ':') {
        Some((scheme, address)) => if scheme.len() > 0 && address.len() > 0 {
            Some(RefView { scheme, address, content_hint: None, snapshot_cid: None })
        } else {
            None
        },
        None => None,
    }
}

/// How a link is spelled.
pub open spec fn ref_uri(r: RefView) -> Text {
    r.scheme + ":"@ + r.address
}

impl Ref {
    /// Parse `scheme:address`, such as `blob:ab12` or `twin:node/kitchen/temp`.
    pub fn parse(s: &str) -> (r: Option<Ref>)
        ensures
            view_opt(r) == parsed_ref(s@),
    {
        match cut_once(s, ':') {
            Some((scheme, address)) => {
                if scheme.is_empty() || address.is_empty() {
                    return None;
                }
                Some(
                    Ref {
                        scheme: scheme.to_string(),
                        address: address.to_string(),
                        content_hint: None,
                        snapshot_cid: None,
                    },
                )
            },
            None => None,
        }
    }

    /// Spell the link as `scheme:address`.
    pub fn uri(&self) -> (r: String)
        ensures
            r@ == ref_uri(self@),
    {
        concat(concat(self.scheme.as_str(), ":").as_str(), self.address.as_str())
    }
}

/// Canonical key of a coordinate tuple: `dim=key` pairs joined by the unit
/// separator, in the order of the dimension names.
pub open spec fn canonical_key(coords: CoordsView) -> Text {
    join(key_order(coords.dom()).map_values(|d: Text| d + "="@ + coords[d]), "\u{1f}"@)
}

/// Canonical key of a coordinate tuple: `dim=key` pairs joined by the unit
/// separator, in the order of the dimension names.
pub fn cell_key(coords: &Coords) -> (r: String)
    ensures
        r@ == canonical_key(coords@),
{
    let mut parts: Vec<String> = Vec::new();
    let n: usize = coords.len();
    let ghost order = key_order(coords@.dom());
    let mut i: usize = 0;
    while i < n
        invariant
            i <= n,
            order == key_order(coords@.dom()),
            n == order.len(),
            parts@.len() == i,
            forall|j: int|
                0 <= j < i ==> (#[trigger] parts@[j])@ == order[j] + "="@ + coords@[order[j]],
        decreases n - i,
    {
        let dim = concat(coords.key_at(i).as_str(), "=");
        parts.push(concat(dim.as_str(), coords.value_at(i).as_str()));
        i += 1;
    }
    assert(Seq::new(parts@.len(), |i: int| parts@[i]@) =~= order.map_values(
        |d: Text| d + "="@ + coords@[d],
    ));
    join_text(&parts, "\u{1f}")
}

/// A space at its birth: it carries the representation axis with the raw plane.
pub open spec fn new_space(name: Text) -> SpaceView {
    SpaceView {
        name,
        dimensions: Map::empty().insert(
            REPRESENTATION@,
            DimensionView {
                name: REPRESENTATION@,
                kind: "string"@,
                coords: seq![RAW@],
                kind_from: OriginView::Birth,
                origins: Map::empty().insert(RAW@, OriginView::Birth),
            },
        ),
        cells: Map::empty(),
        rules: Map::empty(),
        derived: Map::empty(),
        rule_stamps: Map::empty(),
        waiting: Map::empty(),
    }
}

/// A dimension of which nothing is known but its name.
pub open spec fn bare_dimension(name: Text) -> DimensionView {
    DimensionView {
        name,
        kind: Seq::empty(),
        coords: Seq::empty(),
        kind_from: OriginView::Birth,
        origins: Map::empty(),
    }
}

/// A dimension once a kind was declared for it: the earliest declaration counts.
pub open spec fn with_kind(
    d: DimensionView,
    declared: bool,
    kind: Text,
    from: OriginView,
) -> DimensionView {
    if declared && !earlier(from, d.kind_from) {
        d
    } else {
        DimensionView { kind, kind_from: from, ..d }
    }
}

/// A dimension that knows the coordinate `key`: each coordinate stands by where it
/// comes from first.
pub open spec fn with_coordinate(d: DimensionView, key: Text, from: OriginView) -> DimensionView {
    if d.origins.contains_key(key) && !earlier(from, d.origins[key]) {
        d
    } else {
        let origins = d.origins.insert(key, from);
        DimensionView { origins, coords: listing(origins), ..d }
    }
}

/// A dimension as far as a space knows it: declared, waiting to be, or bare.
pub open spec fn known_dimension(s: SpaceView, d: Text) -> DimensionView {
    if s.dimensions.contains_key(d) {
        s.dimensions[d]
    } else if s.waiting.contains_key(d) {
        s.waiting[d]
    } else {
        bare_dimension(d)
    }
}

/// A dimension after a declaration, a new coordinate, or both.
pub open spec fn dimension_after(
    x: DimensionView,
    declared: bool,
    kind: Option<Text>,
    key: Option<Text>,
    from: OriginView,
) -> DimensionView {
    let named = match kind {
        Some(kind) => with_kind(x, declared, kind, from),
        None => x,
    };
    match key {
        Some(key) => with_coordinate(named, key, from),
        None => named,
    }
}

/// The dimensions of a space after an op that declares `kinds` and brings the
/// coordinates `keys`. A dimension that is not declared waits.
pub open spec fn located(
    s: SpaceView,
    kinds: Map<Text, Text>,
    keys: Map<Text, Text>,
    from: OriginView,
) -> SpaceView {
    let touched = |d: Text| kinds.contains_key(d) || keys.contains_key(d);
    let after = |d: Text|
        dimension_after(
            known_dimension(s, d),
            s.dimensions.contains_key(d),
            kinds.get(d),
            keys.get(d),
            from,
        );
    SpaceView {
        dimensions: Map::new(
            |d: Text| s.dimensions.contains_key(d) || kinds.contains_key(d),
            |d: Text|
                if touched(d) {
                    after(d)
                } else {
                    s.dimensions[d]
                },
        ),
        waiting: Map::new(
            |d: Text|
                if touched(d) {
                    !s.dimensions.contains_key(d) && !kinds.contains_key(d)
                } else {
                    s.waiting.contains_key(d)
                },
            |d: Text|
                if touched(d) {
                    after(d)
                } else {
                    s.waiting[d]
                },
        ),
        ..s
    }
}

/// The stamp of a cell.
pub open spec fn cell_stamp(c: CellView) -> StampView {
    StampView { lamport: c.lamport, writer: c.writer }
}

/// The stamp of an op.
pub open spec fn op_stamp(op: StampedView) -> StampView {
    StampView { lamport: op.lamport, writer: op.writer }
}

/// A space after a stamped write to one of its cells: the cell is replaced unless a
/// stamp that is at least as great stands there.
pub open spec fn written(
    s: SpaceView,
    cell: CellView,
    derivation: Option<DerivationView>,
) -> SpaceView {
    let k = canonical_key(cell.coords);
    if s.cells.contains_key(k) && !stamp_beats(cell_stamp(cell), cell_stamp(s.cells[k])) {
        s
    } else {
        SpaceView {
            cells: s.cells.insert(k, cell),
            derived: match derivation {
                Some(d) => s.derived.insert(k, d),
                None => s.derived.remove(k),
            },
            ..s
        }
    }
}

/// A space after a stamped definition of a rule: the rule is replaced unless a stamp
/// that is at least as great stands with it.
pub open spec fn ruled(s: SpaceView, rule: RuleView, stamp: StampView) -> SpaceView {
    if s.rule_stamps.contains_key(rule.id) && !stamp_beats(stamp, s.rule_stamps[rule.id]) {
        s
    } else {
        SpaceView {
            rules: s.rules.insert(rule.id, rule),
            rule_stamps: s.rule_stamps.insert(rule.id, stamp),
            ..s
        }
    }
}

/// The space that an op is about.
pub open spec fn space_of(op: OpView) -> Text {
    match op {
        OpView::CreateSpace { space } => space,
        OpView::AddDimension { space, .. } => space,
        OpView::AddCoordinate { space, .. } => space,
        OpView::SetCell { space, .. } => space,
        OpView::ClearCell { space, .. } => space,
        OpView::DefineRule { space, .. } => space,
        OpView::SetDerived { space, .. } => space,
    }
}

/// A cell to be written, with its provenance.
#[verifier::ext_equal]
pub struct CellWrite {
    pub cell: CellView,
    pub derivation: Option<DerivationView>,
}

/// The cell that an op writes, where it writes one.
pub open spec fn cell_write(op: StampedView) -> Option<CellWrite> {
    let cell = |coords: CoordsView, value: Option<ValueView>|
        CellView { coords, value, lamport: op.lamport, writer: op.writer };
    match op.inner {
        OpView::SetCell { coords, value, .. } => Some(
            CellWrite { cell: cell(coords, Some(value)), derivation: None },
        ),
        OpView::ClearCell { coords, .. } => Some(
            CellWrite { cell: cell(coords, None), derivation: None },
        ),
        OpView::SetDerived { coords, value, derivation, .. } => Some(
            CellWrite { cell: cell(coords, Some(value)), derivation: Some(derivation) },
        ),
        _ => None,
    }
}

/// The kinds that an op declares: one that writes a cell declares the dimensions of
/// its address as dimensions of strings.
pub open spec fn kinds_of(op: StampedView) -> Map<Text, Text> {
    match op.inner {
        OpView::AddDimension { name, kind, .. } => Map::empty().insert(name, kind),
        _ => match cell_write(op) {
            Some(w) => w.cell.coords.map_values(|key: Text| "string"@),
            None => Map::empty(),
        },
    }
}

/// The coordinates that an op brings.
pub open spec fn keys_of(op: StampedView) -> Map<Text, Text> {
    match op.inner {
        OpView::AddCoordinate { dimension, key, .. } => Map::empty().insert(dimension, key),
        _ => match cell_write(op) {
            Some(w) => w.cell.coords,
            None => Map::empty(),
        },
    }
}

/// What a stamped op makes of the space it is about.
pub open spec fn space_after(s: SpaceView, op: StampedView) -> SpaceView {
    let t = located(s, kinds_of(op), keys_of(op), OriginView::Op { stamp: op_stamp(op) });
    match op.inner {
        OpView::DefineRule { rule, .. } => ruled(t, rule, op_stamp(op)),
        _ => match cell_write(op) {
            Some(w) => written(t, w.cell, w.derivation),
            None => t,
        },
    }
}

/// A space as far as a machine knows it: created, waiting to be, or new.
pub open spec fn known_space(m: MachineView, name: Text) -> SpaceView {
    if m.spaces.contains_key(name) {
        m.spaces[name]
    } else if m.waiting.contains_key(name) {
        m.waiting[name]
    } else {
        new_space(name)
    }
}

/// The machine after a stamped op. The clock never falls behind the stamp; what an op
/// makes of a space that is not created yet waits for the creation.
pub open spec fn applied(m: MachineView, op: StampedView) -> MachineView {
    let clock = if op.lamport > m.clock {
        op.lamport
    } else {
        m.clock
    };
    let name = space_of(op.inner);
    let s = space_after(known_space(m, name), op);
    if m.spaces.contains_key(name) || op.inner is CreateSpace {
        MachineView { spaces: m.spaces.insert(name, s), waiting: m.waiting.remove(name), clock }
    } else {
        MachineView { spaces: m.spaces, waiting: m.waiting.insert(name, s), clock }
    }
}

/// May a cell be seen from a slice? Wherever both name a dimension they must
/// agree; a dimension that the cell leaves open it spans.
pub open spec fn compatible(coords: CoordsView, fixed: CoordsView) -> bool {
    forall|d: Text| #[trigger]
        fixed.contains_key(d) && coords.contains_key(d) ==> coords[d] == fixed[d]
}

/// The cells of a space in the order of their keys.
pub open spec fn cells_of(m: MachineView, space: Text) -> Seq<CellView> {
    if m.spaces.contains_key(space) {
        values_in_order(m.spaces[space].cells)
    } else {
        Seq::empty()
    }
}

/// The live cells of a space that are compatible with `fixed`, in key order.
pub open spec fn sliced(m: MachineView, space: Text, fixed: CoordsView) -> Seq<CellView> {
    cells_of(m, space).filter(|c: CellView| c.value is Some && compatible(c.coords, fixed))
}

/// The live cells of a space that apply at a point, in key order: those whose
/// address is a part of `at`.
pub open spec fn applying(m: MachineView, space: Text, at: CoordsView) -> Seq<CellView> {
    cells_of(m, space).filter(|c: CellView| c.value is Some && c.coords.submap_of(at))
}

/// Does a cell take precedence over another: by fixing more dimensions, or by a
/// later Lamport time where both fix as many?
pub open spec fn outranks(a: CellView, b: CellView) -> bool {
    a.coords.dom().len() > b.coords.dom().len() || (a.coords.dom().len() == b.coords.dom().len()
        && a.lamport > b.lamport)
}

/// The cell at `i` is outranked by none and outranks every later one.
pub open spec fn is_best(cells: Seq<CellView>, i: int) -> bool {
    &&& 0 <= i < cells.len()
    &&& forall|j: int| 0 <= j < cells.len() ==> !outranks(#[trigger] cells[j], cells[i])
    &&& forall|j: int| i < j < cells.len() ==> outranks(cells[i], #[trigger] cells[j])
}

/// The cell that answers at a point: of those that apply, the most specific; of
/// equally specific ones the latest; of equally late ones the last in key order.
pub open spec fn resolved(m: MachineView, space: Text, at: CoordsView) -> Option<CellView> {
    let cells = applying(m, space, at);
    if cells.len() == 0 {
        None
    } else {
        Some(cells[choose|i: int| is_best(cells, i)])
    }
}

/// No two positions are both best.
pub proof fn lemma_best_unique(cells: Seq<CellView>, i: int, j: int)
    requires
        is_best(cells, i),
        is_best(cells, j),
    ensures
        i == j,
{
    if i < j {
        assert(outranks(cells[i], cells[j]));
        assert(!outranks(cells[i], cells[j]));
    } else if j < i {
        assert(outranks(cells[j], cells[i]));
        assert(!outranks(cells[j], cells[i]));
    }
}

pub(crate) proof fn lemma_filter_step<A>(s: Seq<A>, pred: spec_fn(A) -> bool, i: int)
    requires
        0 <= i < s.len(),
    ensures
        s.take(i + 1).filter(pred) == (if pred(s[i]) {
            s.take(i).filter(pred).push(s[i])
        } else {
            s.take(i).filter(pred)
        }),
{
    reveal(Seq::filter);
    assert(s.take(i + 1).drop_last() =~= s.take(i));
    assert(s.take(i + 1).last() == s[i]);
}

impl Dimension {
    fn bare(name: &str) -> (d: Dimension)
        ensures
            d@ == bare_dimension(name@),
    {
        let d = Dimension {
            name: name.to_string(),
            kind: String::new(),
            coords: Vec::new(),
            kind_from: Origin::Birth,
            origins: SortedMap::new(),
        };
        assert(views(d.coords@) =~= Seq::<Text>::empty());
        assert(d.kind@ =~= Seq::<char>::empty());
        d
    }

    fn declare(&mut self, declared: bool, kind: &str, from: &Origin)
        ensures
            final(self)@ == with_kind(old(self)@, declared, kind@, from@),
    {
        if !declared || from.is_earlier(&self.kind_from) {
            self.kind = kind.to_string();
            self.kind_from = from.duplicate();
        }
    }

    fn register(&mut self, key: &str, from: &Origin)
        ensures
            final(self)@ == with_coordinate(old(self)@, key@, from@),
    {
        let known = match self.origins.get(key) {
            Some(o) => !from.is_earlier(o),
            None => false,
        };
        if !known {
            self.origins.insert(key.to_string(), from.duplicate());
            self.coords = list_in_order(&self.origins);
        }
    }
}

impl Default for Space {
    fn default() -> (s: Space)
        ensures
            s@ == (SpaceView {
                name: Seq::empty(),
                dimensions: Map::empty(),
                cells: Map::empty(),
                rules: Map::empty(),
                derived: Map::empty(),
                rule_stamps: Map::empty(),
                waiting: Map::empty(),
            }),
    {
        let name = String::new();
        assert(name@ =~= Seq::<char>::empty());
        Space {
            name,
            dimensions: SortedMap::new(),
            cells: SortedMap::new(),
            rules: SortedMap::new(),
            derived: SortedMap::new(),
            rule_stamps: SortedMap::new(),
            waiting: SortedMap::new(),
        }
    }
}

/// One dimension of a space after a declaration, a new coordinate, or both.
spec fn touched(
    s: SpaceView,
    d: Text,
    kind: Option<Text>,
    key: Option<Text>,
    from: OriginView,
) -> SpaceView {
    let declared = s.dimensions.contains_key(d);
    let x = dimension_after(known_dimension(s, d), declared, kind, key, from);
    if declared || kind is Some {
        SpaceView {
            dimensions: s.dimensions.insert(d, x),
            waiting: s.waiting.remove(d),
            ..s
        }
    } else {
        SpaceView { waiting: s.waiting.insert(d, x), ..s }
    }
}

impl Space {
    fn created(name: &str) -> (s: Space)
        ensures
            s@ == new_space(name@),
    {
        let mut axis = Dimension::bare(REPRESENTATION);
        axis.declare(false, "string", &Origin::Birth);
        axis.register(RAW, &Origin::Birth);
        proof {
            let origins = Map::<Text, OriginView>::empty().insert(RAW@, OriginView::Birth);
            assert(seq![RAW@][0] == RAW@);
            assert(lists_in_order(seq![RAW@], origins));
            lemma_listing(seq![RAW@], origins);
        }
        let mut s = Space::default();
        s.name = name.to_string();
        s.dimensions.insert(REPRESENTATION.to_string(), axis);
        s
    }

    /// Declare one dimension, or make a coordinate known to it, or both.
    fn touch(&mut self, dim: &str, kind: Option<&str>, key: Option<&str>, from: &Origin)
        ensures
            final(self)@ == touched(old(self)@, dim@, view_opt(kind), view_opt(key), from@),
    {
        let ghost before = self@;
        let declared = self.dimensions.contains_key(dim);
        let early = self.waiting.remove(dim);
        let mut d = match self.dimensions.remove(dim) {
            Some(d) => d,
            None => match early {
                Some(d) => d,
                None => Dimension::bare(dim),
            },
        };
        assert(d@ == known_dimension(before, dim@));
        if let Some(kind) = kind {
            d.declare(declared, kind, from);
        }
        if let Some(key) = key {
            d.register(key, from);
        }
        if declared || kind.is_some() {
            self.dimensions.insert(dim.to_string(), d);
            assert(self@.dimensions =~= before.dimensions.insert(dim@, d@));
        } else {
            self.waiting.insert(dim.to_string(), d);
            assert(self@.waiting =~= before.waiting.insert(dim@, d@));
            assert(self@.dimensions =~= before.dimensions);
        }
    }

    /// Make the coordinates of an address known to their dimensions.
    fn register(&mut self, coords: &Coords, from: &Origin)
        ensures
            final(self)@ == located(
                old(self)@,
                coords@.map_values(|key: Text| "string"@),
                coords@,
                from@,
            ),
    {
        let ghost before = self@;
        let ghost string = |key: Text| "string"@;
        let n: usize = coords.len();
        let ghost order = key_order(coords@.dom());
        let ghost mut seen: CoordsView = Map::empty();
        proof {
            lemma_key_order_lists(coords@.dom());
            lemma_located_nothing(before, seen.map_values(string), seen, from@);
        }
        let mut i: usize = 0;
        while i < n
            invariant
                i <= n,
                order == key_order(coords@.dom()),
                lists(order, coords@.dom()),
                n == order.len(),
                string == (|key: Text| "string"@),
                forall|d: Text| #[trigger]
                    seen.contains_key(d) <==> (exists|j: int| 0 <= j < i && order[j] == d),
                forall|d: Text| #[trigger] seen.contains_key(d) ==> seen[d] == coords@[d],
                self@ == located(before, seen.map_values(string), seen, from@),
            decreases n - i,
        {
            let dim = coords.key_at(i);
            let key = coords.value_at(i);
            let ghost was = self@;
            self.touch(dim.as_str(), Some("string"), Some(key.as_str()), from);
            proof {
                if seen.contains_key(dim@) {
                    let j = choose|j: int| 0 <= j < i && order[j] == dim@;
                    assert(text_lt(order[j], order[i as int]));
                    lemma_text_lt_irreflexive(dim@);
                }
                let next = seen.insert(dim@, key@);
                assert forall|x: Text| #[trigger] next.contains_key(x) <==> (exists|j: int|
                    0 <= j < i + 1 && order[j] == x) by {
                    if x == dim@ {
                        assert(order[i as int] == x);
                    } else if seen.contains_key(x) {
                        let j = choose|j: int| 0 <= j < i && order[j] == x;
                        assert(0 <= j < i + 1 && order[j] == x);
                    }
                }
                assert(known_dimension(was, dim@) == known_dimension(before, dim@));
                let after = located(before, next.map_values(string), next, from@);
                assert(self@.dimensions =~= after.dimensions);
                assert(self@.waiting =~= after.waiting);
                seen = next;
            }
            i += 1;
        }
        proof {
            assert forall|d: Text| #[trigger] coords@.contains_key(d) implies seen.contains_key(
                d,
            ) by {
                assert(order.contains(d));
                let j = choose|j: int| 0 <= j < order.len() && order[j] == d;
                assert(0 <= j < i && order[j] == d);
            }
            assert forall|d: Text| #[trigger] seen.contains_key(d) implies coords@.contains_key(
                d,
            ) by {
                let j = choose|j: int| 0 <= j < i && order[j] == d;
                assert(order.contains(d));
            }
            assert(seen =~= coords@);
        }
    }

    /// Write a stamped cell, unless a stamp that is at least as great stands there.
    fn write(&mut self, cell: Cell, derivation: Option<Derivation>)
        ensures
            final(self)@ == written(old(self)@, cell@, view_opt(derivation)),
    {
        let k = cell_key(&cell.coords);
        let newer = match self.cells.get(k.as_str()) {
            Some(existing) => cell.lamport > existing.lamport || (cell.lamport
                == existing.lamport && sorts_before(
                existing.writer.as_str(),
                cell.writer.as_str(),
            )),
            None => true,
        };
        if newer {
            self.cells.insert(k.clone(), cell);
            match derivation {
                Some(d) => {
                    self.derived.insert(k, d);
                },
                None => {
                    let _ = self.derived.remove(k.as_str());
                },
            }
        }
    }

    /// Define a rule, unless a stamp that is at least as great stands with it.
    fn define(&mut self, rule: &Rule, stamp: &Stamp)
        ensures
            final(self)@ == ruled(old(self)@, rule@, stamp@),
    {
        let newer = match self.rule_stamps.get(rule.id.as_str()) {
            Some(existing) => stamp.beats(existing),
            None => true,
        };
        if newer {
            self.rules.insert(rule.id.clone(), rule.duplicate());
            self.rule_stamps.insert(rule.id.clone(), stamp.duplicate());
        }
    }

    fn write_cell(
        &mut self,
        coords: &Coords,
        value: Option<Value>,
        op: &Stamped,
        derivation: Option<Derivation>,
    )
        requires
            cell_write(op@) == Some(
                (CellWrite {
                    cell: CellView {
                        coords: coords@,
                        value: view_opt(value),
                        lamport: op.lamport,
                        writer: op.writer@,
                    },
                    derivation: view_opt(derivation),
                }),
            ),
        ensures
            final(self)@ == space_after(old(self)@, op@),
    {
        let from = Origin::Op { stamp: op.stamp() };
        // Coordinates register as they are seen in addresses.
        self.register(coords, &from);
        let cell = Cell {
            coords: coords.duplicate(),
            value,
            lamport: op.lamport,
            writer: op.writer.clone(),
        };
        self.write(cell, derivation);
    }

    /// Take a stamped op.
    fn take(&mut self, op: &Stamped)
        ensures
            final(self)@ == space_after(old(self)@, op@),
    {
        let ghost before = self@;
        let ghost from = OriginView::Op { stamp: op_stamp(op@) };
        match &op.inner {
            Op::CreateSpace { .. } => {
                proof {
                    lemma_located_nothing(before, kinds_of(op@), keys_of(op@), from);
                }
            },
            Op::AddDimension { name, kind, .. } => {
                let origin = Origin::Op { stamp: op.stamp() };
                self.touch(name.as_str(), Some(kind.as_str()), None, &origin);
                proof {
                    lemma_located_one(before, name@, kinds_of(op@), keys_of(op@), from);
                }
            },
            Op::AddCoordinate { dimension, key, .. } => {
                let origin = Origin::Op { stamp: op.stamp() };
                self.touch(dimension.as_str(), None, Some(key.as_str()), &origin);
                proof {
                    lemma_located_one(before, dimension@, kinds_of(op@), keys_of(op@), from);
                }
            },
            Op::SetCell { coords, value, .. } => {
                self.write_cell(coords, Some(value.duplicate()), op, None);
            },
            Op::ClearCell { coords, .. } => {
                self.write_cell(coords, None, op, None);
            },
            Op::DefineRule { rule, .. } => {
                proof {
                    lemma_located_nothing(before, kinds_of(op@), keys_of(op@), from);
                }
                self.define(rule, &op.stamp());
            },
            Op::SetDerived { coords, value, derivation, .. } => {
                self.write_cell(
                    coords,
                    Some(value.duplicate()),
                    op,
                    Some(derivation.duplicate()),
                );
            },
        }
    }
}

/// An op that declares nothing and brings no coordinate leaves the dimensions alone.
pub proof fn lemma_located_nothing(
    s: SpaceView,
    kinds: Map<Text, Text>,
    keys: Map<Text, Text>,
    from: OriginView,
)
    requires
        forall|d: Text| !#[trigger] kinds.contains_key(d),
        forall|d: Text| !#[trigger] keys.contains_key(d),
    ensures
        located(s, kinds, keys, from) == s,
{
    let t = located(s, kinds, keys, from);
    assert(t.dimensions =~= s.dimensions);
    assert(t.waiting =~= s.waiting);
}

proof fn lemma_located_one(
    s: SpaceView,
    d: Text,
    kinds: Map<Text, Text>,
    keys: Map<Text, Text>,
    from: OriginView,
)
    requires
        kinds.contains_key(d) || keys.contains_key(d),
        forall|x: Text| #[trigger] kinds.contains_key(x) ==> x == d,
        forall|x: Text| #[trigger] keys.contains_key(x) ==> x == d,
    ensures
        located(s, kinds, keys, from) == touched(s, d, kinds.get(d), keys.get(d), from),
{
    let t = located(s, kinds, keys, from);
    let u = touched(s, d, kinds.get(d), keys.get(d), from);
    assert(t.dimensions =~= u.dimensions);
    assert(t.waiting =~= u.waiting);
}

impl Stamped {
    /// The stamp of the op.
    pub fn stamp(&self) -> (stamp: Stamp)
        ensures
            stamp@ == op_stamp(self@),
    {
        Stamp { lamport: self.lamport, writer: self.writer.clone() }
    }
}

impl Op {
    /// The space that the op is about.
    pub fn space(&self) -> (name: &String)
        ensures
            name@ == space_of(self@),
    {
        match self {
            Op::CreateSpace { space } => space,
            Op::AddDimension { space, .. } => space,
            Op::AddCoordinate { space, .. } => space,
            Op::SetCell { space, .. } => space,
            Op::ClearCell { space, .. } => space,
            Op::DefineRule { space, .. } => space,
            Op::SetDerived { space, .. } => space,
        }
    }
}

impl Default for SpaceMachine {
    fn default() -> (m: SpaceMachine)
        ensures
            m@ == (MachineView { spaces: Map::empty(), clock: 0, waiting: Map::empty() }),
    {
        SpaceMachine { spaces: SortedMap::new(), clock: 0, waiting: SortedMap::new() }
    }
}

impl SpaceMachine {
    /// Stamp a local op: one past the highest Lamport time seen so far.
    pub fn stamp(&mut self, writer: &str, inner: Op) -> (op: Stamped)
        requires
            old(self).clock < u64::MAX,
        ensures
            final(self)@ == (MachineView { clock: (old(self)@.clock + 1) as u64, ..old(self)@ }),
            op@ == (StampedView {
                lamport: (old(self)@.clock + 1) as u64,
                writer: writer@,
                inner: inner@,
            }),
    {
        self.clock = self.clock + 1;
        Stamped { lamport: self.clock, writer: writer.to_string(), inner }
    }

    /// Apply one stamped op. What it makes of a space that is not created yet waits
    /// for the creation.
    pub fn apply(&mut self, op: &Stamped)
        ensures
            final(self)@ == applied(old(self)@, op@),
    {
        let ghost before = self@;
        if op.lamport > self.clock {
            self.clock = op.lamport;
        }
        let name = op.inner.space();
        let creates = match &op.inner {
            Op::CreateSpace { .. } => true,
            _ => false,
        };
        let created = self.spaces.contains_key(name.as_str());
        let early = self.waiting.remove(name.as_str());
        let mut s = match self.spaces.remove(name.as_str()) {
            Some(s) => s,
            None => match early {
                Some(s) => s,
                None => Space::created(name.as_str()),
            },
        };
        s.take(op);
        if created || creates {
            self.spaces.insert(name.clone(), s);
        } else {
            self.waiting.insert(name.clone(), s);
        }
        assert(self@.spaces =~= applied(before, op@).spaces);
        assert(self@.waiting =~= applied(before, op@).waiting);
    }
}

/// Does an address agree with `fixed` wherever both name a dimension?
fn is_compatible(coords: &Coords, fixed: &Coords) -> (r: bool)
    ensures
        r == compatible(coords@, fixed@),
{
    let n: usize = fixed.len();
    let ghost order = key_order(fixed@.dom());
    proof {
        lemma_key_order_lists(fixed@.dom());
    }
    let mut i: usize = 0;
    while i < n
        invariant
            i <= n,
            order == key_order(fixed@.dom()),
            n == order.len(),
            forall|j: int|
                0 <= j < i && coords@.contains_key(#[trigger] order[j]) ==> coords@[order[j]]
                    == fixed@[order[j]],
        decreases n - i,
    {
        let dim = fixed.key_at(i);
        let key = fixed.value_at(i);
        if let Some(k) = coords.get(dim.as_str()) {
            if !same_text(k.as_str(), key.as_str()) {
                assert(fixed@.contains_key(dim@) && coords@.contains_key(dim@));
                return false;
            }
        }
        i += 1;
    }
    assert forall|d: Text| #[trigger]
        fixed@.contains_key(d) && coords@.contains_key(d) implies coords@[d] == fixed@[d] by {
        assert(order.contains(d));
        let j = choose|j: int| 0 <= j < order.len() && order[j] == d;
        assert(coords@.contains_key(order[j]));
    }
    true
}

/// Is an address a part of `at`?
fn is_part_of(coords: &Coords, at: &Coords) -> (r: bool)
    ensures
        r == coords@.submap_of(at@),
{
    let n: usize = coords.len();
    let ghost order = key_order(coords@.dom());
    proof {
        lemma_key_order_lists(coords@.dom());
    }
    let mut i: usize = 0;
    while i < n
        invariant
            i <= n,
            order == key_order(coords@.dom()),
            n == order.len(),
            forall|j: int|
                0 <= j < i ==> at@.contains_key(#[trigger] order[j]) && coords@[order[j]]
                    == at@[order[j]],
        decreases n - i,
    {
        let dim = coords.key_at(i);
        let key = coords.value_at(i);
        let agrees = match at.get(dim.as_str()) {
            Some(k) => same_text(k.as_str(), key.as_str()),
            None => false,
        };
        if !agrees {
            assert(coords@.dom().contains(dim@));
            return false;
        }
        i += 1;
    }
    assert forall|d: Text| #[trigger] coords@.dom().contains(d) implies at@.dom().contains(d)
        && coords@[d] == at@[d] by {
        assert(order.contains(d));
        let j = choose|j: int| 0 <= j < order.len() && order[j] == d;
        assert(at@.contains_key(order[j]));
    }
    true
}

impl SpaceMachine {
    /// Read a slice: all live cells compatible with `fixed`, in key order. A cell is
    /// compatible when, for every dimension in `fixed`, it either pins the same
    /// coordinate or does not mention the dimension at all.
    pub fn slice<'a>(&'a self, space: &str, fixed: &Coords) -> (r: Vec<&'a Cell>)
        ensures
            views(r@) == sliced(self@, space@, fixed@),
    {
        let ghost keep = |c: CellView| c.value is Some && compatible(c.coords, fixed@);
        let mut r: Vec<&'a Cell> = Vec::new();
        let s = match self.spaces.get(space) {
            Some(s) => s,
            None => {
                assert(Seq::<CellView>::empty().filter(keep) =~= Seq::<CellView>::empty()) by {
                    reveal(Seq::filter);
                }
                assert(views(r@) =~= Seq::<CellView>::empty());
                return r;
            },
        };
        let n: usize = s.cells.len();
        let ghost all = cells_of(self@, space@);
        let mut i: usize = 0;
        proof {
            assert(all.take(0) =~= Seq::<CellView>::empty());
            reveal(Seq::filter);
            assert(views(r@) =~= all.take(0).filter(keep));
        }
        while i < n
            invariant
                i <= n,
                n == key_order(s@.cells.dom()).len(),
                all == values_in_order(s@.cells),
                keep == (|c: CellView| c.value is Some && compatible(c.coords, fixed@)),
                views(r@) == all.take(i as int).filter(keep),
            decreases n - i,
        {
            let c = s.cells.value_at(i);
            proof {
                lemma_filter_step(all, keep, i as int);
            }
            if c.value.is_some() && is_compatible(&c.coords, fixed) {
                let ghost before = r@;
                r.push(c);
                assert(views(r@) =~= views(before).push(c@));
            }
            i += 1;
        }
        assert(all.take(n as int) =~= all);
        r
    }

    /// Resolve the value at a point: the most specific live cell whose coordinates
    /// are a subset of `at` and agree with it.
    pub fn get<'a>(&'a self, space: &str, at: &Coords) -> (r: Option<&'a Cell>)
        ensures
            view_opt(r) == resolved(self@, space@, at@),
    {
        let ghost keep = |c: CellView| c.value is Some && c.coords.submap_of(at@);
        let s = match self.spaces.get(space) {
            Some(s) => s,
            None => {
                assert(applying(self@, space@, at@).len() == 0) by {
                    reveal(Seq::filter);
                }
                return None;
            },
        };
        let n: usize = s.cells.len();
        let ghost all = cells_of(self@, space@);
        let ghost mut chosen: int = 0;
        let mut best: Option<&'a Cell> = None;
        let mut i: usize = 0;
        proof {
            assert(all.take(0) =~= Seq::<CellView>::empty());
            reveal(Seq::filter);
            assert(all.take(0).filter(keep).len() == 0);
        }
        while i < n
            invariant
                i <= n,
                n == key_order(s@.cells.dom()).len(),
                all == values_in_order(s@.cells),
                keep == (|c: CellView| c.value is Some && c.coords.submap_of(at@)),
                best is None <==> all.take(i as int).filter(keep).len() == 0,
                best matches Some(b) ==> is_best(all.take(i as int).filter(keep), chosen) && b@
                    == all.take(i as int).filter(keep)[chosen],
            decreases n - i,
        {
            let c = s.cells.value_at(i);
            let ghost before = all.take(i as int).filter(keep);
            proof {
                lemma_filter_step(all, keep, i as int);
            }
            if c.value.is_some() && is_part_of(&c.coords, at) {
                let replaces = match best {
                    None => true,
                    Some(b) => {
                        let held: usize = b.coords.len();
                        let offered: usize = c.coords.len();
                        held < offered || (held == offered && b.lamport <= c.lamport)
                    },
                };
                let ghost after = before.push(c@);
                if replaces {
                    proof {
                        if let Some(b) = best {
                            assert(forall|j: int|
                                0 <= j < before.len() ==> !outranks(#[trigger] before[j], b@));
                        }
                        chosen = before.len() as int;
                        assert(is_best(after, chosen));
                    }
                    best = Some(c);
                } else {
                    assert(is_best(after, chosen));
                }
            }
            i += 1;
        }
        proof {
            assert(all.take(n as int) =~= all);
            let cells = applying(self@, space@, at@);
            if let Some(b) = best {
                let j = choose|j: int| is_best(cells, j);
                lemma_best_unique(cells, chosen, j);
            }
        }
        best
    }
}

} // verus!
