//! What values stand for: a view leaves nothing out and puts nothing in.

use vstd::prelude::*;

use crate::json::Json;
use crate::materialize::WorkItem;
use crate::origin::{Origin, OriginView, Stamp};
use crate::proto::{
    DimensionInfo, Handled, Params, Request, RequestView, Response, ResponseView, SpaceInfo,
};
use crate::service::{
    AiRequest, AiRequestView, Analysis, AnalysisView, AnalyzeJob, MaterializeJob, Service,
    SliceCell, Step, StepView,
};
use crate::sorted_map::views;
use crate::space::{
    view_opt, view_result, Cell, Component, Derivation, Dimension, Op, OpView, Ref, Rule, Space,
    SpaceMachine, Stamped, Value, ValueView,
};

verus! {

/// A sequence stands for what each of its elements stands for, in order; an optional value
/// for what is in it; a result for its outcome.
pub proof fn law_parts_shown<T: View, E: View>(
    items: Seq<T>,
    i: int,
    value: Option<T>,
    result: Result<T, E>,
)
    ensures
        views(items).len() == items.len(),
        0 <= i < items.len() ==> views(items)[i] == items[i]@,
        value is None <==> view_opt(value) is None,
        value matches Some(v) ==> view_opt(value) == Some(v@),
        result matches Ok(v) ==> view_result(result) == Ok::<T::V, E::V>(v@),
        result matches Err(e) ==> view_result(result) == Err::<T::V, E::V>(e@),
{
}

/// A link, a component, JSON, provenance, a stamp and an origin stand for all their fields.
pub proof fn law_fields_shown(
    r: Ref,
    c: Component,
    j: Json,
    d: Derivation,
    stamp: Stamp,
    origin: Origin,
)
    ensures
        r@.scheme == r.scheme@,
        r@.address == r.address@,
        r@.content_hint == view_opt(r.content_hint),
        r@.snapshot_cid == view_opt(r.snapshot_cid),
        c@.text == c.text@,
        c@.wide == c.wide@,
        j@ == j.text@,
        d@.rule_id == d.rule_id@,
        d@.converter == d.converter@,
        d@.input_key == d.input_key@,
        stamp@.lamport == stamp.lamport,
        stamp@.writer == stamp.writer@,
        match origin {
            Origin::Birth => origin@ is Birth,
            Origin::Op { stamp: s } => origin@ == (OriginView::Op { stamp: s@ }),
        },
{
}

/// A value stands for its kind and what it holds.
pub proof fn law_value_shown(v: Value)
    ensures
        match v {
            Value::Text { text } => v@ == (ValueView::Text { text: text@ }),
            Value::Number { number } => v@ == (ValueView::Number { number: number@ }),
            Value::Bool { bool } => v@ == (ValueView::Bool { bool }),
            Value::Timestamp { ms } => v@ == (ValueView::Timestamp { ms }),
            Value::Json { json } => v@ == (ValueView::Json { json: json@ }),
            Value::Vector { vector } => v@ == (ValueView::Vector { vector: views(vector@) }),
            Value::Ref { r } => v@ == (ValueView::Ref { r: r@ }),
        },
{
}

/// A dimension, a rule, a cell, a space and a machine stand for all their fields.
pub proof fn law_space_shown(d: Dimension, r: Rule, c: Cell, s: Space, m: SpaceMachine)
    ensures
        d@.name == d.name@,
        d@.kind == d.kind@,
        d@.coords == views(d.coords@),
        d@.kind_from == d.kind_from@,
        d@.origins == d.origins@,
        r@.id == r.id@,
        r@.source == r.source@,
        r@.converter == r.converter@,
        r@.target_representation == r.target_representation@,
        r@.params == view_opt(r.params),
        c@.coords == c.coords@,
        c@.value == view_opt(c.value),
        c@.lamport == c.lamport,
        c@.writer == c.writer@,
        s@.name == s.name@,
        s@.dimensions == s.dimensions@,
        s@.cells == s.cells@,
        s@.rules == s.rules@,
        s@.derived == s.derived@,
        s@.rule_stamps == s.rule_stamps@,
        s@.waiting == s.waiting@,
        m@.spaces == m.spaces@,
        m@.clock == m.clock,
        m@.waiting == m.waiting@,
{
}

/// An op stands for what it asks for, and a stamped one for its stamp too.
pub proof fn law_op_shown(op: Op, stamped: Stamped)
    ensures
        stamped@.lamport == stamped.lamport,
        stamped@.writer == stamped.writer@,
        stamped@.inner == stamped.inner@,
        match op {
            Op::CreateSpace { space } => op@ == (OpView::CreateSpace { space: space@ }),
            Op::AddDimension { space, name, kind } => op@ == (OpView::AddDimension {
                space: space@,
                name: name@,
                kind: kind@,
            }),
            Op::AddCoordinate { space, dimension, key } => op@ == (OpView::AddCoordinate {
                space: space@,
                dimension: dimension@,
                key: key@,
            }),
            Op::SetCell { space, coords, value } => op@ == (OpView::SetCell {
                space: space@,
                coords: coords@,
                value: value@,
            }),
            Op::ClearCell { space, coords } => op@ == (OpView::ClearCell {
                space: space@,
                coords: coords@,
            }),
            Op::DefineRule { space, rule } => op@ == (OpView::DefineRule {
                space: space@,
                rule: rule@,
            }),
            Op::SetDerived { space, coords, value, derivation } => op@ == (OpView::SetDerived {
                space: space@,
                coords: coords@,
                value: value@,
                derivation: derivation@,
            }),
        },
{
}

/// A request stands for what it asks for.
pub proof fn law_request_shown(r: Request, p: Params)
    ensures
        p@.json == p.json@,
        p@.labels == view_opt(p.labels),
        match r {
            Request::Spaces => r@ is Spaces,
            Request::Describe { space } => r@ == (RequestView::Describe { space: space@ }),
            Request::CreateSpace { space } => r@ == (RequestView::CreateSpace { space: space@ }),
            Request::AddDimension { space, name, kind } => r@ == (RequestView::AddDimension {
                space: space@,
                name: name@,
                kind: kind@,
            }),
            Request::AddCoordinate { space, dimension, key } => r@ == (
            RequestView::AddCoordinate { space: space@, dimension: dimension@, key: key@ }),
            Request::SetCell { space, coords, value } => r@ == (RequestView::SetCell {
                space: space@,
                coords: coords@,
                value: value@,
            }),
            Request::ClearCell { space, coords } => r@ == (RequestView::ClearCell {
                space: space@,
                coords: coords@,
            }),
            Request::Get { space, coords } => r@ == (RequestView::Get {
                space: space@,
                coords: coords@,
            }),
            Request::Slice { space, fixed } => r@ == (RequestView::Slice {
                space: space@,
                fixed: fixed@,
            }),
            Request::DefineRule { space, rule } => r@ == (RequestView::DefineRule {
                space: space@,
                rule: rule@,
            }),
            Request::SetDerived { space, coords, value, derivation } => r@ == (
            RequestView::SetDerived {
                space: space@,
                coords: coords@,
                value: value@,
                derivation: derivation@,
            }),
            Request::Rules { space } => r@ == (RequestView::Rules { space: space@ }),
            Request::Materialize { space, rule } => r@ == (RequestView::Materialize {
                space: space@,
                rule: view_opt(rule),
            }),
            Request::Analyze { space, op, fixed, params } => r@ == (RequestView::Analyze {
                space: space@,
                op: op@,
                fixed: fixed@,
                params: view_opt(params),
            }),
        },
{
}

/// A response stands for what it says, and the outcome of a request for its response and its
/// op.
pub proof fn law_response_shown(r: Response, d: DimensionInfo, s: SpaceInfo, h: Handled)
    ensures
        d@.name == d.name@,
        d@.kind == d.kind@,
        d@.coords == views(d.coords@),
        s@.name == s.name@,
        s@.dimensions == views(s.dimensions@),
        s@.rules == views(s.rules@),
        s@.cells == s.cells,
        h@.response == h.response@,
        h@.op == view_opt(h.op),
        match r {
            Response::Done => r@ is Done,
            Response::Spaces { spaces } => r@ == (ResponseView::Spaces { spaces: views(spaces@) }),
            Response::Space { info } => r@ == (ResponseView::Space { info: info@ }),
            Response::Cell { cell, key } => r@ == (ResponseView::Cell {
                cell: view_opt(cell),
                key: view_opt(key),
            }),
            Response::Cells { cells } => r@ == (ResponseView::Cells { cells: views(cells@) }),
            Response::Rules { rules } => r@ == (ResponseView::Rules { rules: views(rules@) }),
            Response::Materialized { written, skipped, failed } => r@ == (
            ResponseView::Materialized {
                written: written as nat,
                skipped: skipped as nat,
                failed: failed as nat,
            }),
            Response::Analysis { result } => r@ == (ResponseView::Analysis { result: result@ }),
            Response::Error { error } => r@ == (ResponseView::Error { error: error@ }),
        },
{
}

/// A service, an item, a job, a question and a step stand for all that they hold.
pub proof fn law_service_shown(
    s: Service,
    w: WorkItem,
    m: MaterializeJob,
    c: SliceCell,
    a: AnalyzeJob,
)
    ensures
        s@.self_node == s.self_node@,
        s@.machine == s.machine@,
        w@.rule_id == w.rule_id@,
        w@.converter == w.converter@,
        w@.target_representation == w.target_representation@,
        w@.target == w.target@,
        w@.value == w.value@,
        w@.params == view_opt(w.params),
        w@.input_key == w.input_key@,
        m@.space == m.space@,
        m@.items == views(m.items@),
        m@.next == m.next,
        m@.written == m.written,
        m@.skipped == m.skipped,
        m@.failed == m.failed,
        c@.coords == c.coords@,
        c@.value == c.value@,
        a@.space == a.space@,
        a@.kind == a.kind@,
        a@.params == a.params@,
        a@.cells == views(a.cells@),
        a@.next == a.next,
        a@.results == views(a.results@),
        a@.written == a.written,
{
}

/// An analysis op, a question and a step stand for their kind and all that they hold.
pub proof fn law_step_shown(a: Analysis, q: AiRequest, s: Step)
    ensures
        match a {
            Analysis::Compare => a@ is Compare,
            Analysis::Summarize => a@ is Summarize,
            Analysis::Check { policy } => a@ == (AnalysisView::Check { policy: policy@ }),
            Analysis::Classify { labels } => a@ == (AnalysisView::Classify { labels: labels@ }),
        },
        match q {
            AiRequest::Compare { a, b, criteria } => q@ == (AiRequestView::Compare {
                a: a@,
                b: b@,
                criteria: criteria@,
            }),
            AiRequest::Summarize { cells } => q@ == (AiRequestView::Summarize {
                cells: views(cells@),
            }),
            AiRequest::Check { value, policy } => q@ == (AiRequestView::Check {
                value: value@,
                policy: policy@,
            }),
            AiRequest::Classify { value, labels } => q@ == (AiRequestView::Classify {
                value: value@,
                labels: labels@,
            }),
        },
        match s {
            Step::Reply { response } => s@ == (StepView::Reply { response: response@ }),
            Step::Save { response } => s@ == (StepView::Save { response: response@ }),
            Step::Convert { job } => s@ == (StepView::Convert { job: job@ }),
            Step::SaveConverted { job, accepted } => s@ == (StepView::SaveConverted {
                job: job@,
                accepted,
            }),
            Step::Ask { job, request } => s@ == (StepView::Ask { job: job@, request: request@ }),
            Step::SaveVerdict { job, accepted } => s@ == (StepView::SaveVerdict {
                job: job@,
                accepted,
            }),
        },
{
}

} // verus!
