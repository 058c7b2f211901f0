//! The grid instance: a service that owns a node's spaces. Reads are open to any
//! caller; mutations are gated to the owning node. Materialization and analysis
//! alternate decisions, taken here, with calls over the mesh and snapshots to disk:
//! each decision is a `Step` that says what to do next.

use vstd::prelude::*;
use vstd::utf8::{decode_utf8, encode_utf8, encode_utf8_decode_utf8, is_char_boundary};

use crate::encode::{concat3, coords_json, coords_text, payload_text, value_payload};
use crate::json::{
    json_array, json_at, json_document, member_string, member_text, quote, quoted, Json,
};
use crate::materialize::{
    all_pending, all_settled, countable, input_key, memo_key, plan, selected_rules, view_str,
    WorkItem, WorkItemView,
};
use crate::proto::{
    handle, machine_after, outcome, will_stamp, HandledView, Params, ParamsView, Request,
    RequestView, Response, ResponseView,
};
use crate::sorted_map::{duplicate_all, key_order, views, Duplicate};
use crate::space::{
    cells_of, compatible, sliced, view_opt, view_result, CellView, Coords, CoordsView, Derivation,
    DerivationView, MachineView, SpaceMachine, Value, ValueView, REPRESENTATION,
};
use crate::text::{concat, decimal, decimal_text, join, join_text, same_text, Text};

verus! {

/// The service name that instances advertise.
pub const SERVICE: &'static str = "ce.grid";

/// The request/reply control topic.
pub const CTL_TOPIC: &'static str = "grid/ctl";

/// The analysis service.
pub const AI_SERVICE: &'static str = "grid.ai";

/// The topic on which the analysis service listens.
pub const AI_TOPIC: &'static str = "grid.ai/ctl";

/// A node and the spaces that it owns.
#[derive(Debug)]
pub struct Service {
    pub self_node: String,
    pub machine: SpaceMachine,
}

/// What a `Service` stands for.
#[verifier::ext_equal]
pub struct ServiceView {
    pub self_node: Text,
    pub machine: MachineView,
}

impl View for Service {
    type V = ServiceView;

    open spec fn view(&self) -> ServiceView {
        ServiceView {
            self_node: self.self_node@,
            machine: self.machine@,
        }
    }
}

/// A materialization under way.
#[derive(Debug)]
pub struct MaterializeJob {
    pub space: String,
    pub items: Vec<WorkItem>,
    /// The item whose conversion is due.
    pub next: usize,
    pub written: usize,
    pub skipped: usize,
    pub failed: usize,
}

/// What a `MaterializeJob` stands for.
#[verifier::ext_equal]
pub struct MaterializeJobView {
    pub space: Text,
    pub items: Seq<WorkItemView>,
    pub next: nat,
    pub written: nat,
    pub skipped: nat,
    pub failed: nat,
}

impl View for MaterializeJob {
    type V = MaterializeJobView;

    open spec fn view(&self) -> MaterializeJobView {
        MaterializeJobView {
            space: self.space@,
            items: views(self.items@),
            next: self.next as nat,
            written: self.written as nat,
            skipped: self.skipped as nat,
            failed: self.failed as nat,
        }
    }
}

/// A live cell as an analysis sees it.
#[derive(Debug, Clone)]
pub struct SliceCell {
    pub coords: Coords,
    pub value: Value,
}

/// What a `SliceCell` stands for.
#[verifier::ext_equal]
pub struct SliceCellView {
    pub coords: CoordsView,
    pub value: ValueView,
}

impl View for SliceCell {
    type V = SliceCellView;

    open spec fn view(&self) -> SliceCellView {
        SliceCellView {
            coords: self.coords@,
            value: self.value@,
        }
    }
}

impl Duplicate for SliceCell {
    fn duplicate(&self) -> (copy: Self) {
        SliceCell {
            coords: self.coords.duplicate(),
            value: self.value.duplicate(),
        }
    }
}

/// An analysis op.
#[derive(Debug, Clone)]
pub enum Analysis {
    Compare,
    Summarize,
    Check { policy: String },
    Classify { labels: Json },
}

/// What an `Analysis` stands for.
#[verifier::ext_equal]
pub enum AnalysisView {
    Compare,
    Summarize,
    Check { policy: Text },
    Classify { labels: Text },
}

impl View for Analysis {
    type V = AnalysisView;

    open spec fn view(&self) -> AnalysisView {
        match *self {
            Analysis::Compare => AnalysisView::Compare,
            Analysis::Summarize => AnalysisView::Summarize,
            Analysis::Check { policy } => AnalysisView::Check { policy: policy@ },
            Analysis::Classify { labels } => AnalysisView::Classify { labels: labels@ },
        }
    }
}

/// An analysis under way.
#[derive(Debug)]
pub struct AnalyzeJob {
    pub space: String,
    pub kind: Analysis,
    pub params: Json,
    pub cells: Vec<SliceCell>,
    /// The cell whose verdict is due, where the analysis goes cell by cell.
    pub next: usize,
    /// The JSON of each cell's result so far.
    pub results: Vec<String>,
    /// How many verdicts were written back.
    pub written: usize,
}

/// What an `AnalyzeJob` stands for.
#[verifier::ext_equal]
pub struct AnalyzeJobView {
    pub space: Text,
    pub kind: AnalysisView,
    pub params: Text,
    pub cells: Seq<SliceCellView>,
    pub next: nat,
    pub results: Seq<Text>,
    pub written: nat,
}

impl View for AnalyzeJob {
    type V = AnalyzeJobView;

    open spec fn view(&self) -> AnalyzeJobView {
        AnalyzeJobView {
            space: self.space@,
            kind: self.kind@,
            params: self.params@,
            cells: views(self.cells@),
            next: self.next as nat,
            results: views(self.results@),
            written: self.written as nat,
        }
    }
}

/// A question to the analysis service.
#[derive(Debug, Clone)]
pub enum AiRequest {
    Compare { a: Value, b: Value, criteria: String },
    Summarize { cells: Vec<SliceCell> },
    Check { value: Value, policy: String },
    Classify { value: Value, labels: Json },
}

/// What an `AiRequest` stands for.
#[verifier::ext_equal]
pub enum AiRequestView {
    Compare { a: ValueView, b: ValueView, criteria: Text },
    Summarize { cells: Seq<SliceCellView> },
    Check { value: ValueView, policy: Text },
    Classify { value: ValueView, labels: Text },
}

impl View for AiRequest {
    type V = AiRequestView;

    open spec fn view(&self) -> AiRequestView {
        match *self {
            AiRequest::Compare { a, b, criteria } => AiRequestView::Compare {
                a: a@,
                b: b@,
                criteria: criteria@,
            },
            AiRequest::Summarize { cells } => AiRequestView::Summarize { cells: views(cells@) },
            AiRequest::Check { value, policy } => AiRequestView::Check {
                value: value@,
                policy: policy@,
            },
            AiRequest::Classify { value, labels } => AiRequestView::Classify {
                value: value@,
                labels: labels@,
            },
        }
    }
}

/// What to do next for a request.
#[derive(Debug)]
pub enum Step {
    /// Send the response.
    Reply { response: Response },
    /// Save a snapshot, then send what `persisted` makes of the response.
    Save { response: Response },
    /// Call the converter for the next item, then go on with `converted`.
    Convert { job: MaterializeJob },
    /// Save a snapshot, then go on with `conversion_saved`.
    SaveConverted { job: MaterializeJob, accepted: bool },
    /// Ask the analysis service, then go on with `answered`.
    Ask { job: AnalyzeJob, request: AiRequest },
    /// Save a snapshot, then go on with `verdict_saved`.
    SaveVerdict { job: AnalyzeJob, accepted: bool },
}

/// What a `Step` stands for.
#[verifier::ext_equal]
pub enum StepView {
    Reply { response: ResponseView },
    Save { response: ResponseView },
    Convert { job: MaterializeJobView },
    SaveConverted { job: MaterializeJobView, accepted: bool },
    Ask { job: AnalyzeJobView, request: AiRequestView },
    SaveVerdict { job: AnalyzeJobView, accepted: bool },
}

impl View for Step {
    type V = StepView;

    open spec fn view(&self) -> StepView {
        match *self {
            Step::Reply { response } => StepView::Reply { response: response@ },
            Step::Save { response } => StepView::Save { response: response@ },
            Step::Convert { job } => StepView::Convert { job: job@ },
            Step::SaveConverted { job, accepted } => StepView::SaveConverted {
                job: job@,
                accepted,
            },
            Step::Ask { job, request } => StepView::Ask { job: job@, request: request@ },
            Step::SaveVerdict { job, accepted } => StepView::SaveVerdict { job: job@, accepted },
        }
    }
}

/// Does a request need the owner's word? All but the plain reads do.
pub open spec fn mutating(req: RequestView) -> bool {
    !(req is Spaces || req is Describe || req is Get || req is Slice || req is Rules)
}

/// Does a request need the owner's word?
pub fn mutates(req: &Request) -> (r: bool)
    ensures
        r == mutating(req@),
{
    match req {
        Request::Spaces => false,
        Request::Describe { .. } => false,
        Request::Get { .. } => false,
        Request::Slice { .. } => false,
        Request::Rules { .. } => false,
        _ => true,
    }
}

/// How many bytes of a node id are shown.
pub open spec fn short_len(id: Text) -> int {
    if encode_utf8(id).len() < 8 {
        encode_utf8(id).len() as int
    } else {
        8
    }
}

/// Does the shown part of a node id end between two characters?
pub open spec fn can_shorten(id: Text) -> bool {
    is_char_boundary(encode_utf8(id), short_len(id))
}

/// The shown part of a node id: its first eight bytes.
pub open spec fn shortened(id: Text) -> Text {
    decode_utf8(encode_utf8(id).take(short_len(id)))
}

/// The first eight bytes of a node id.
pub fn short(id: &str) -> (r: &str)
    requires
        can_shorten(id@),
    ensures
        r@ == shortened(id@),
{
    let n: usize = id.as_bytes().len();
    let cut: usize = if n < 8 {
        n
    } else {
        8
    };
    let (head, _) = id.split_at(cut);
    proof {
        encode_utf8_decode_utf8(head@);
        assert(encode_utf8(head@) =~= encode_utf8(id@).take(cut as int));
    }
    head
}

/// The reply to a write from elsewhere.
pub open spec fn write_refusal(from: Text, owner: Text) -> Text {
    "write refused: v1 accepts writes only from the owning node (caller "@ + shortened(from)
        + ", owner "@ + shortened(owner)
        + "). Fix: run the ce-grid CLI on the owning node; cap-gated remote writes (grid:write) are the documented next step."@
}

fn refuse_write(from: &str, owner: &str) -> (r: String)
    requires
        can_shorten(from@),
        can_shorten(owner@),
    ensures
        r@ == write_refusal(from@, owner@),
{
    let caller = concat3(
        "write refused: v1 accepts writes only from the owning node (caller ",
        short(from),
        ", owner ",
    );
    concat3(
        caller.as_str(),
        short(owner),
        "). Fix: run the ce-grid CLI on the owning node; cap-gated remote writes (grid:write) are the documented next step.",
    )
}

/// A failed reply.
pub open spec fn failure(error: Text) -> StepView {
    StepView::Reply { response: ResponseView::Error { error } }
}

fn fail(error: String) -> (step: Step)
    ensures
        step@ == failure(error@),
{
    Step::Reply { response: Response::error(error) }
}

/// Where a materialization goes from here: to the next conversion, or to the reply
/// once all are behind it.
pub open spec fn next_conversion(job: MaterializeJobView) -> StepView {
    if job.next < job.items.len() {
        StepView::Convert { job }
    } else {
        StepView::Reply {
            response: ResponseView::Materialized {
                written: job.written,
                skipped: job.skipped,
                failed: job.failed,
            },
        }
    }
}

/// A job with one more conversion behind it.
pub open spec fn conversion_counted(job: MaterializeJobView, success: bool) -> MaterializeJobView {
    MaterializeJobView {
        next: job.next + 1,
        written: if success {
            job.written + 1
        } else {
            job.written
        },
        failed: if success {
            job.failed
        } else {
            job.failed + 1
        },
        ..job
    }
}

/// Every conversion that is behind a job was counted once.
pub open spec fn tallied(job: MaterializeJobView) -> bool {
    job.next <= job.items.len() && job.written + job.failed == job.next
}

/// Where a materialization goes once the snapshot with a converted value was saved, or was
/// not.
pub open spec fn saved_conversion(job: MaterializeJobView, accepted: bool, saved: bool) -> StepView {
    next_conversion(conversion_counted(job, accepted && saved))
}

impl MaterializeJob {
    fn proceed(self) -> (step: Step)
        ensures
            step@ == next_conversion(self@),
    {
        if self.next < self.items.len() {
            Step::Convert { job: self }
        } else {
            Step::Reply {
                response: Response::Materialized {
                    written: self.written,
                    skipped: self.skipped,
                    failed: self.failed,
                },
            }
        }
    }

    fn count(self, success: bool) -> (step: Step)
        requires
            tallied(self@),
            self@.next < self@.items.len(),
        ensures
            step@ == next_conversion(conversion_counted(self@, success)),
            tallied(conversion_counted(self@, success)),
    {
        let mut job = self;
        assert(job.next < job.items.len());
        job.next = job.next + 1;
        if success {
            job.written = job.written + 1;
        } else {
            job.failed = job.failed + 1;
        }
        job.proceed()
    }

    /// Go on after the snapshot with a converted value was saved, or was not. The
    /// conversion counts as written where the write was accepted and saved.
    pub fn conversion_saved(self, accepted: bool, saved: bool) -> (step: Step)
        requires
            tallied(self@),
            self@.next < self@.items.len(),
        ensures
            step@ == next_conversion(conversion_counted(self@, accepted && saved)),
            step@ == saved_conversion(self@, accepted, saved),
            tallied(conversion_counted(self@, accepted && saved)),
    {
        self.count(accepted && saved)
    }
}

/// The request that records a converted value with its provenance.
pub open spec fn derived_request(space: Text, item: WorkItemView, value: ValueView) -> RequestView {
    RequestView::SetDerived {
        space,
        coords: item.target,
        value,
        derivation: DerivationView {
            rule_id: item.rule_id,
            converter: item.converter,
            input_key: item.input_key,
        },
    }
}

/// What comes of recording a converted value.
pub open spec fn derived_outcome(
    s: ServiceView,
    space: Text,
    item: WorkItemView,
    value: ValueView,
) -> HandledView {
    outcome(s.machine, s.self_node, derived_request(space, item, value))
}

/// The service after a request to its machine.
pub open spec fn service_after(s: ServiceView, h: HandledView) -> ServiceView {
    ServiceView { machine: machine_after(s.machine, h.op), ..s }
}

/// Where a materialization goes after a converter was called for its next item: a value is
/// recorded and a snapshot is due; without one the item has failed.
pub open spec fn conversion_step(
    s: ServiceView,
    job: MaterializeJobView,
    value: Option<ValueView>,
) -> StepView {
    match value {
        Some(v) => StepView::SaveConverted {
            job,
            accepted: !(derived_outcome(s, job.space, job.items[job.next as int], v).response
                is Error),
        },
        None => next_conversion(conversion_counted(job, false)),
    }
}

/// The service after a converter was called for the next item of a job.
pub open spec fn conversion_service(
    s: ServiceView,
    job: MaterializeJobView,
    value: Option<ValueView>,
) -> ServiceView {
    match value {
        Some(v) => service_after(
            s,
            derived_outcome(s, job.space, job.items[job.next as int], v),
        ),
        None => s,
    }
}

/// A materialization from its start.
pub open spec fn materialization(m: MachineView, space: Text, rule: Option<Text>) -> StepView {
    if m.spaces.contains_key(space) {
        let rules = selected_rules(m, space, rule);
        next_conversion(
            MaterializeJobView {
                space,
                items: all_pending(m, space, rules),
                next: 0,
                written: 0,
                skipped: all_settled(m, space, rules),
                failed: 0,
            },
        )
    } else {
        failure("no such space: "@ + space)
    }
}

/// The slice that an analysis reads: what the request fixes, and the text plane
/// unless it fixes a representation itself.
pub open spec fn analysis_slice(fixed: CoordsView) -> CoordsView {
    if fixed.contains_key(REPRESENTATION@) {
        fixed
    } else {
        fixed.insert(REPRESENTATION@, "text"@)
    }
}

/// The address and value of a live cell.
pub open spec fn slice_cell(c: CellView) -> SliceCellView {
    SliceCellView { coords: c.coords, value: c.value->0 }
}

/// The cells that an analysis reads.
pub open spec fn analyzed_cells(m: MachineView, space: Text, fixed: CoordsView) -> Seq<
    SliceCellView,
> {
    sliced(m, space, analysis_slice(fixed)).map_values(|c: CellView| slice_cell(c))
}

/// How `Debug` writes a string slice.
pub uninterp spec fn debug_quoted(s: Text) -> Text;

/// Calls the `Debug` formatting of `str`. What it writes is named by
/// `debug_quoted`.
#[verifier::external_body]
fn debug_quote(s: &str) -> (r: String)
    ensures
        r@ == debug_quoted(s@),
{
    format!("{s:?}")
}

/// An address as it is shown in a message.
pub open spec fn shown_coords(coords: CoordsView) -> Text {
    "{"@ + join(
        key_order(coords.dom()).map_values(
            |d: Text| debug_quoted(d) + ": "@ + debug_quoted(coords[d]),
        ),
        ", "@,
    ) + "}"@
}

fn show_coords(coords: &Coords) -> (t: String)
    ensures
        t@ == shown_coords(coords@),
{
    let mut parts: Vec<String> = Vec::new();
    let n: usize = coords.len();
    let ghost order = key_order(coords@.dom());
    let mut i: usize = 0;
    while i < n
        invariant
            i <= n,
            order == key_order(coords@.dom()),
            n == order.len(),
            parts@.len() == i,
            forall|j: int|
                0 <= j < i ==> (#[trigger] parts@[j])@ == debug_quoted(order[j]) + ": "@
                    + debug_quoted(coords@[order[j]]),
        decreases n - i,
    {
        let dim = debug_quote(coords.key_at(i).as_str());
        parts.push(concat3(dim.as_str(), ": ", debug_quote(coords.value_at(i).as_str()).as_str()));
        i += 1;
    }
    assert(Seq::new(parts@.len(), |i: int| parts@[i]@) =~= order.map_values(
        |d: Text| debug_quoted(d) + ": "@ + debug_quoted(coords@[d]),
    ));
    concat3("{", join_text(&parts, ", ").as_str(), "}")
}

/// The reply where a slice has nothing to analyze.
pub open spec fn nothing_to_analyze(space: Text, fixed: CoordsView) -> Text {
    "nothing to analyze: slice "@ + shown_coords(fixed) + " of '"@ + space
        + "' is empty (materialize first?)"@
}

/// The name of an analysis op.
pub open spec fn analysis_name(kind: AnalysisView) -> Text {
    match kind {
        AnalysisView::Compare => "compare"@,
        AnalysisView::Summarize => "summarize"@,
        AnalysisView::Check { .. } => "check"@,
        AnalysisView::Classify { .. } => "classify"@,
    }
}

/// The question that a cell-by-cell analysis asks next.
pub open spec fn cell_question(job: AnalyzeJobView) -> AiRequestView {
    let value = job.cells[job.next as int].value;
    match job.kind {
        AnalysisView::Check { policy } => AiRequestView::Check { value, policy },
        AnalysisView::Classify { labels } => AiRequestView::Classify { value, labels },
        _ => AiRequestView::Summarize { cells: job.cells },
    }
}

/// The result of a cell-by-cell analysis.
pub open spec fn analysis_report(job: AnalyzeJobView) -> Text {
    "{\"op\":"@ + quoted(analysis_name(job.kind)) + ",\"results\":["@ + join(job.results, ","@)
        + "],\"written\":"@ + decimal(job.written) + "}"@
}

/// Where a cell-by-cell analysis goes from here: to the next cell, or to the reply
/// once all are behind it.
pub open spec fn next_question(job: AnalyzeJobView) -> StepView {
    if job.next < job.cells.len() {
        StepView::Ask { job, request: cell_question(job) }
    } else {
        StepView::Reply { response: ResponseView::Analysis { result: analysis_report(job) } }
    }
}

/// An analysis once its slice is known to hold cells. The arguments are the
/// `criteria`, `policy` and `labels` of the parameters, where they are there and of
/// the right shape.
pub open spec fn analysis_begun(
    space: Text,
    op: Text,
    cells: Seq<SliceCellView>,
    params: Text,
    criteria: Option<Text>,
    policy: Option<Text>,
    labels: Option<Text>,
) -> StepView {
    let job = |kind: AnalysisView|
        AnalyzeJobView { space, kind, params, cells, next: 0, results: Seq::empty(), written: 0 };
    if op == "compare"@ {
        if cells.len() != 2 {
            failure(
                "compare needs exactly 2 cells in the slice, found "@ + decimal(cells.len()),
            )
        } else {
            StepView::Ask {
                job: job(AnalysisView::Compare),
                request: AiRequestView::Compare {
                    a: cells[0].value,
                    b: cells[1].value,
                    criteria: match criteria {
                        Some(c) => c,
                        None => Seq::empty(),
                    },
                },
            }
        }
    } else if op == "summarize"@ {
        StepView::Ask {
            job: job(AnalysisView::Summarize),
            request: AiRequestView::Summarize { cells },
        }
    } else if op == "check"@ {
        match policy {
            Some(policy) => next_question(job(AnalysisView::Check { policy })),
            None => failure("check needs params.policy (the policy text)"@),
        }
    } else if op == "classify"@ {
        match labels {
            Some(labels) => next_question(job(AnalysisView::Classify { labels })),
            None => failure("classify needs params.labels (an array)"@),
        }
    } else {
        failure(
            "unknown analysis op '"@ + op + "' (compare|classify|summarize|check)"@,
        )
    }
}

/// JSON, where it is an array.
pub open spec fn array_only(json: Option<Text>) -> Option<Text> {
    match json {
        Some(m) => if json_array(m) {
            Some(m)
        } else {
            None
        },
        None => None,
    }
}

/// An analysis from its start.
pub open spec fn analysis(
    m: MachineView,
    space: Text,
    op: Text,
    fixed: CoordsView,
    params: Option<ParamsView>,
) -> StepView {
    let cells = analyzed_cells(m, space, fixed);
    let p = match params {
        Some(p) => p,
        None => ParamsView { json: "{}"@, labels: None },
    };
    if !m.spaces.contains_key(space) {
        failure("no such space: "@ + space)
    } else if cells.len() == 0 {
        failure(nothing_to_analyze(space, analysis_slice(fixed)))
    } else {
        analysis_begun(
            space,
            op,
            cells,
            p.json,
            member_string(p.json, "criteria"@),
            member_string(p.json, "policy"@),
            array_only(p.labels),
        )
    }
}

/// The conversion that a verdict on a cell is recorded as.
pub open spec fn verdict_item(job: AnalyzeJobView) -> WorkItemView {
    let cell = job.cells[job.next as int];
    WorkItemView {
        rule_id: "analyze:"@ + analysis_name(job.kind),
        converter: AI_SERVICE@,
        target_representation: "label"@,
        target: cell.coords.insert(REPRESENTATION@, "label"@),
        value: cell.value,
        params: Some(job.params),
        input_key: memo_key(cell.value, AI_SERVICE@, Some(job.params)),
    }
}

/// A job with one more cell behind it.
pub open spec fn cell_reported(job: AnalyzeJobView, reply: Result<Text, Text>) -> AnalyzeJobView {
    let coords = coords_json(job.cells[job.next as int].coords);
    AnalyzeJobView {
        next: job.next + 1,
        results: job.results.push(
            match reply {
                Ok(result) => "{\"coords\":"@ + coords + ",\"result\":"@ + result + "}"@,
                Err(error) => "{\"coords\":"@ + coords + ",\"error\":"@ + quoted(error) + "}"@,
            },
        ),
        ..job
    }
}

/// The result of an analysis that asks a single question.
pub open spec fn single_report(kind: AnalysisView, result: Text) -> Text {
    "{\"op\":"@ + quoted(analysis_name(kind)) + ",\"result\":"@ + result + "}"@
}

/// Does an analysis ask cell by cell?
pub open spec fn by_cell(kind: AnalysisView) -> bool {
    kind is Check || kind is Classify
}

/// Will an answer be recorded in the space?
pub open spec fn records_verdict(
    job: AnalyzeJobView,
    reply: Result<Text, Text>,
    label: Option<Text>,
) -> bool {
    by_cell(job.kind) && reply is Ok && label is Some
}

/// What comes of recording a verdict.
pub open spec fn verdict_outcome(s: ServiceView, job: AnalyzeJobView, label: Text) -> HandledView {
    derived_outcome(s, job.space, verdict_item(job), ValueView::Text { text: label })
}

/// Where an analysis goes after an answer; `label` is what the `label` of the
/// answer spells.
pub open spec fn answer_step(
    s: ServiceView,
    job: AnalyzeJobView,
    reply: Result<Text, Text>,
    label: Option<Text>,
) -> StepView {
    if records_verdict(job, reply, label) {
        StepView::SaveVerdict {
            job: cell_reported(job, reply),
            accepted: !(verdict_outcome(s, job, label->0).response is Error),
        }
    } else if by_cell(job.kind) {
        next_question(cell_reported(job, reply))
    } else {
        match reply {
            Ok(result) => StepView::Reply {
                response: ResponseView::Analysis { result: single_report(job.kind, result) },
            },
            Err(error) => failure(error),
        }
    }
}

/// The service after an answer.
pub open spec fn answered_service(
    s: ServiceView,
    job: AnalyzeJobView,
    reply: Result<Text, Text>,
    label: Option<Text>,
) -> ServiceView {
    if records_verdict(job, reply, label) {
        service_after(s, verdict_outcome(s, job, label->0))
    } else {
        s
    }
}

/// What the `label` of an answer spells, where there is an answer with one.
pub open spec fn reply_label(reply: Result<Text, Text>) -> Option<Text> {
    match reply {
        Ok(result) => member_string(result, "label"@),
        Err(_) => None,
    }
}

/// Where an analysis goes once the snapshot with a verdict was saved, or was not.
pub open spec fn saved_verdict(job: AnalyzeJobView, accepted: bool, saved: bool) -> StepView {
    next_question(
        AnalyzeJobView {
            written: if accepted && saved {
                job.written + 1
            } else {
                job.written
            },
            ..job
        },
    )
}

/// The cells that are still to be asked about can be, and no more verdicts were
/// written than cells are behind the job.
pub open spec fn in_progress(job: AnalyzeJobView) -> bool {
    job.next < job.cells.len() && job.results.len() == job.next && job.written <= job.next
}

impl Analysis {
    fn name(&self) -> (r: &'static str)
        ensures
            r@ == analysis_name(self@),
    {
        match self {
            Analysis::Compare => "compare",
            Analysis::Summarize => "summarize",
            Analysis::Check { .. } => "check",
            Analysis::Classify { .. } => "classify",
        }
    }
}

impl AnalyzeJob {
    fn proceed(self) -> (step: Step)
        requires
            by_cell(self.kind@),
        ensures
            step@ == next_question(self@),
    {
        if self.next < self.cells.len() {
            let value = self.cells[self.next].value.duplicate();
            assert(views(self.cells@)[self.next as int] == self.cells@[self.next as int]@);
            let request = match &self.kind {
                Analysis::Check { policy } => AiRequest::Check { value, policy: policy.clone() },
                Analysis::Classify { labels } => AiRequest::Classify {
                    value,
                    labels: labels.duplicate(),
                },
                _ => AiRequest::Summarize { cells: duplicate_all(&self.cells) },
            };
            Step::Ask { job: self, request }
        } else {
            assert(Seq::new(self.results@.len(), |i: int| self.results@[i]@) =~= views(
                self.results@,
            ));
            let op = concat3("{\"op\":", quote(self.kind.name()).as_str(), ",\"results\":[");
            let results = concat3(
                op.as_str(),
                join_text(&self.results, ",").as_str(),
                "],\"written\":",
            );
            let text = concat3(results.as_str(), decimal_text(self.written as u64).as_str(), "}");
            Step::Reply { response: Response::Analysis { result: Json { text } } }
        }
    }

    fn report(self, reply: &Result<Json, String>) -> (job: AnalyzeJob)
        requires
            in_progress(self@),
        ensures
            job@ == cell_reported(self@, view_result(*reply)),
    {
        let mut job = self;
        let ghost before = job@;
        assert(views(job.cells@)[job.next as int] == job.cells@[job.next as int]@);
        let coords = coords_text(&job.cells[job.next].coords);
        let head = concat("{\"coords\":", coords.as_str());
        let line = match reply {
            Ok(result) => {
                let named = concat3(head.as_str(), ",\"result\":", result.text.as_str());
                concat(named.as_str(), "}")
            },
            Err(error) => {
                let named = concat3(head.as_str(), ",\"error\":", quote(error.as_str()).as_str());
                concat(named.as_str(), "}")
            },
        };
        let ghost text = line@;
        let ghost held = job.results@;
        job.results.push(line);
        assert(views(job.results@) =~= views(held).push(text));
        assert(job.next < job.cells.len());
        job.next = job.next + 1;
        job
    }

    /// Go on after the snapshot with a verdict was saved, or was not. The verdict
    /// counts as written where the write was accepted and saved.
    pub fn verdict_saved(self, accepted: bool, saved: bool) -> (step: Step)
        requires
            by_cell(self.kind@),
            self@.written < self@.next <= self@.cells.len(),
        ensures
            step@ == next_question(
                (AnalyzeJobView {
                    written: if accepted && saved {
                        self@.written + 1
                    } else {
                        self@.written
                    },
                    ..self@
                }),
            ),
            step@ == saved_verdict(self@, accepted, saved),
    {
        let mut job = self;
        if accepted && saved {
            job.written = job.written + 1;
        }
        job.proceed()
    }
}

/// Begin an analysis over cells that were read. `criteria`, `policy` and `labels`
/// are those of the parameters, where they are there and of the right shape.
pub fn begin_analysis(
    space: &str,
    op: &str,
    cells: Vec<SliceCell>,
    params: Json,
    criteria: Option<String>,
    policy: Option<String>,
    labels: Option<Json>,
) -> (step: Step)
    ensures
        step@ == analysis_begun(
            space@,
            op@,
            views(cells@),
            params@,
            view_opt(criteria),
            view_opt(policy),
            view_opt(labels),
        ),
{
    let space = space.to_string();
    let results: Vec<String> = Vec::new();
    assert(views(results@) =~= Seq::<Text>::empty());
    if same_text(op, "compare") {
        if cells.len() != 2 {
            return fail(
                concat(
                    "compare needs exactly 2 cells in the slice, found ",
                    decimal_text(cells.len() as u64).as_str(),
                ),
            );
        }
        let request = AiRequest::Compare {
            a: cells[0].value.duplicate(),
            b: cells[1].value.duplicate(),
            criteria: match criteria {
                Some(c) => c,
                None => String::new(),
            },
        };
        let kind = Analysis::Compare;
        let job = AnalyzeJob { space, kind, params, cells, next: 0, results, written: 0 };
        return Step::Ask { job, request };
    }
    if same_text(op, "summarize") {
        let request = AiRequest::Summarize { cells: duplicate_all(&cells) };
        let kind = Analysis::Summarize;
        let job = AnalyzeJob { space, kind, params, cells, next: 0, results, written: 0 };
        return Step::Ask { job, request };
    }
    if same_text(op, "check") {
        return match policy {
            Some(policy) => {
                let kind = Analysis::Check { policy };
                AnalyzeJob { space, kind, params, cells, next: 0, results, written: 0 }.proceed()
            },
            None => fail("check needs params.policy (the policy text)".to_string()),
        };
    }
    if same_text(op, "classify") {
        return match labels {
            Some(labels) => {
                let kind = Analysis::Classify { labels };
                AnalyzeJob { space, kind, params, cells, next: 0, results, written: 0 }.proceed()
            },
            None => fail("classify needs params.labels (an array)".to_string()),
        };
    }
    fail(concat3("unknown analysis op '", op, "' (compare|classify|summarize|check)"))
}

/// Does a request fall to the owner alone, and come from another node?
pub open spec fn refused(s: ServiceView, from: Text, req: RequestView) -> bool {
    mutating(req) && from != s.self_node
}

/// What the service needs of a request that it takes: ids that can be shortened
/// where it must refuse, a clock that can advance where it must stamp, and a count
/// that fits where it must plan.
pub open spec fn serviceable(s: ServiceView, from: Text, req: RequestView) -> bool {
    if refused(s, from, req) {
        can_shorten(from) && can_shorten(s.self_node)
    } else {
        match req {
            RequestView::Materialize { space, rule } => countable(s.machine, space, rule),
            _ => will_stamp(s.machine, req) ==> s.machine.clock < u64::MAX,
        }
    }
}

/// The reply to a request that was not read.
pub open spec fn unread(error: Text) -> StepView {
    failure("bad request: "@ + error)
}

/// The first step of a request that was read.
pub open spec fn request_step(s: ServiceView, from: Text, req: RequestView) -> StepView {
    if refused(s, from, req) {
        failure(write_refusal(from, s.self_node))
    } else {
        match req {
            RequestView::Materialize { space, rule } => materialization(s.machine, space, rule),
            RequestView::Analyze { space, op, fixed, params } => analysis(
                s.machine,
                space,
                op,
                fixed,
                params,
            ),
            _ => {
                let h = outcome(s.machine, s.self_node, req);
                if h.op is Some {
                    StepView::Save { response: h.response }
                } else {
                    StepView::Reply { response: h.response }
                }
            },
        }
    }
}

/// The service after the first step of a request.
pub open spec fn request_service(s: ServiceView, from: Text, req: RequestView) -> ServiceView {
    if refused(s, from, req) || req is Materialize || req is Analyze {
        s
    } else {
        service_after(s, outcome(s.machine, s.self_node, req))
    }
}

impl Service {
    /// A service for a node that owns the spaces of `machine`.
    pub fn new(self_node: String, machine: SpaceMachine) -> (s: Service)
        ensures
            s@ == (ServiceView { self_node: self_node@, machine: machine@ }),
    {
        Service { self_node, machine }
    }

    /// Take one request from a node, read from its payload or not. Reads are open to
    /// every caller; everything else is refused unless it comes from the owning node.
    pub fn handle(&mut self, from: &str, decoded: Result<Request, String>) -> (step: Step)
        requires
            decoded matches Ok(req) ==> serviceable(old(self)@, from@, req@),
        ensures
            decoded matches Ok(req) ==> step@ == request_step(old(self)@, from@, req@)
                && final(self)@ == request_service(old(self)@, from@, req@),
            decoded matches Err(e) ==> step@ == failure("bad request: "@ + e@) && final(self)@
                == old(self)@,
            decoded matches Err(e) ==> step@ == unread(e@),
    {
        let req = match decoded {
            Ok(req) => req,
            Err(e) => {
                return fail(concat("bad request: ", e.as_str()));
            },
        };
        if mutates(&req) && !same_text(from, self.self_node.as_str()) {
            return fail(refuse_write(from, self.self_node.as_str()));
        }
        match req {
            Request::Materialize { space, rule } => {
                match rule {
                    Some(rule) => self.materialize(space.as_str(), Some(rule.as_str())),
                    None => self.materialize(space.as_str(), None),
                }
            },
            Request::Analyze { space, op, fixed, params } => self.analyze(
                space.as_str(),
                op.as_str(),
                fixed,
                params,
            ),
            other => {
                let handled = handle(&mut self.machine, self.self_node.as_str(), other);
                if handled.op.is_some() {
                    Step::Save { response: handled.response }
                } else {
                    Step::Reply { response: handled.response }
                }
            },
        }
    }

    /// Start running the pending derivations of a space.
    pub fn materialize(&self, space: &str, rule: Option<&str>) -> (step: Step)
        requires
            countable(self@.machine, space@, view_str(rule)),
        ensures
            step@ == materialization(self@.machine, space@, view_str(rule)),
    {
        if !self.machine.spaces.contains_key(space) {
            return fail(concat("no such space: ", space));
        }
        let (items, skipped) = plan(&self.machine, space, rule);
        MaterializeJob {
            space: space.to_string(),
            items,
            next: 0,
            written: 0,
            skipped,
            failed: 0,
        }.proceed()
    }

    /// Record a converted value with its provenance. Says whether the machine took
    /// it.
    pub fn write_derived(&mut self, space: &str, item: &WorkItem, value: Value) -> (accepted: bool)
        requires
            will_stamp(old(self)@.machine, derived_request(space@, item@, value@)) ==> old(
                self,
            ).machine.clock < u64::MAX,
        ensures
            accepted == !(derived_outcome(old(self)@, space@, item@, value@).response is Error),
            final(self)@ == service_after(
                old(self)@,
                derived_outcome(old(self)@, space@, item@, value@),
            ),
    {
        let req = Request::SetDerived {
            space: space.to_string(),
            coords: item.target.duplicate(),
            value,
            derivation: Derivation {
                rule_id: item.rule_id.clone(),
                converter: item.converter.clone(),
                input_key: item.input_key.clone(),
            },
        };
        let handled = handle(&mut self.machine, self.self_node.as_str(), req);
        match handled.response {
            Response::Error { .. } => false,
            _ => true,
        }
    }

    /// Go on after a converter was called for the next item of a job: `value` is what
    /// it answered, or `None` where it failed.
    pub fn converted(&mut self, job: MaterializeJob, value: Option<Value>) -> (step: Step)
        requires
            tallied(job@),
            job@.next < job@.items.len(),
            value matches Some(v) ==> (will_stamp(
                old(self)@.machine,
                derived_request(job@.space, job@.items[job@.next as int], v@),
            ) ==> old(self).machine.clock < u64::MAX),
        ensures
            value matches Some(v) ==> ({
                let h = derived_outcome(
                    old(self)@,
                    job@.space,
                    job@.items[job@.next as int],
                    v@,
                );
                &&& step@ == (StepView::SaveConverted {
                    job: job@,
                    accepted: !(h.response is Error),
                })
                &&& final(self)@ == service_after(old(self)@, h)
            }),
            value is None ==> step@ == next_conversion(conversion_counted(job@, false))
                && final(self)@ == old(self)@,
            step@ == conversion_step(old(self)@, job@, view_opt(value)),
            final(self)@ == conversion_service(old(self)@, job@, view_opt(value)),
    {
        match value {
            Some(value) => {
                assert(views(job.items@)[job.next as int] == job.items@[job.next as int]@);
                let accepted = self.write_derived(job.space.as_str(), &job.items[job.next], value);
                Step::SaveConverted { job, accepted }
            },
            None => job.count(false),
        }
    }

    /// Start one analysis op over a slice. The slice is on the text plane unless
    /// `fixed` pins a representation itself.
    pub fn analyze(&self, space: &str, op: &str, fixed: Coords, params: Option<Params>) -> (step:
        Step)
        ensures
            step@ == analysis(self@.machine, space@, op@, fixed@, view_opt(params)),
    {
        let mut fixed = fixed;
        if !fixed.contains_key(REPRESENTATION) {
            fixed.insert(REPRESENTATION.to_string(), "text".to_string());
        }
        if !self.machine.spaces.contains_key(space) {
            return fail(concat("no such space: ", space));
        }
        let cells = slice_cells(&self.machine, space, &fixed);
        if cells.len() == 0 {
            let shown = show_coords(&fixed);
            let named = concat3("nothing to analyze: slice ", shown.as_str(), " of '");
            return fail(concat3(named.as_str(), space, "' is empty (materialize first?)"));
        }
        let p = match params {
            Some(p) => p,
            None => Params { json: Json { text: "{}".to_string() }, labels: None },
        };
        let criteria = member_text(&p.json, "criteria");
        let policy = member_text(&p.json, "policy");
        let labels = match p.labels {
            Some(m) => if m.is_array() {
                Some(m)
            } else {
                None
            },
            None => None,
        };
        begin_analysis(space, op, cells, p.json, criteria, policy, labels)
    }

    /// Go on after the analysis service answered, or did not.
    pub fn answered(&mut self, job: AnalyzeJob, reply: Result<Json, String>) -> (step: Step)
        requires
            by_cell(job.kind@) ==> in_progress(job@),
            by_cell(job.kind@) && reply is Ok ==> old(self).machine.clock < u64::MAX,
        ensures
            step@ == answer_step(
                old(self)@,
                job@,
                view_result(reply),
                reply_label(view_result(reply)),
            ),
            final(self)@ == answered_service(
                old(self)@,
                job@,
                view_result(reply),
                reply_label(view_result(reply)),
            ),
    {
        let label = match &reply {
            Ok(result) => member_text(result, "label"),
            Err(_) => None,
        };
        self.take_answer(job, reply, label)
    }

    /// Go on after an answer whose `label` is known: a verdict on a cell is recorded
    /// on the label plane of the same point.
    pub fn take_answer(
        &mut self,
        job: AnalyzeJob,
        reply: Result<Json, String>,
        label: Option<String>,
    ) -> (step: Step)
        requires
            by_cell(job.kind@) ==> in_progress(job@),
            records_verdict(job@, view_result(reply), view_opt(label)) ==> old(
                self,
            ).machine.clock < u64::MAX,
        ensures
            step@ == answer_step(old(self)@, job@, view_result(reply), view_opt(label)),
            final(self)@ == answered_service(
                old(self)@,
                job@,
                view_result(reply),
                view_opt(label),
            ),
    {
        match &job.kind {
            Analysis::Compare => {},
            Analysis::Summarize => {},
            _ => {
                return self.take_verdict(job, reply, label);
            },
        }
        match reply {
            Ok(result) => {
                let op = concat3("{\"op\":", quote(job.kind.name()).as_str(), ",\"result\":");
                let text = concat3(op.as_str(), result.text.as_str(), "}");
                Step::Reply { response: Response::Analysis { result: Json { text } } }
            },
            Err(e) => fail(e),
        }
    }

    fn take_verdict(
        &mut self,
        job: AnalyzeJob,
        reply: Result<Json, String>,
        label: Option<String>,
    ) -> (step: Step)
        requires
            by_cell(job.kind@),
            in_progress(job@),
            reply is Ok && label is Some ==> old(self).machine.clock < u64::MAX,
        ensures
            step@ == answer_step(old(self)@, job@, view_result(reply), view_opt(label)),
            final(self)@ == answered_service(
                old(self)@,
                job@,
                view_result(reply),
                view_opt(label),
            ),
    {
        if reply.is_ok() {
            if let Some(label) = label {
                let item = job.verdict();
                let value = Value::Text { text: label };
                let accepted = self.write_derived(job.space.as_str(), &item, value);
                let job = job.report(&reply);
                return Step::SaveVerdict { job, accepted };
            }
        }
        job.report(&reply).proceed()
    }
}

impl AnalyzeJob {
    fn verdict(&self) -> (item: WorkItem)
        requires
            in_progress(self@),
        ensures
            item@ == verdict_item(self@),
    {
        let cell = &self.cells[self.next];
        assert(views(self.cells@)[self.next as int] == cell@);
        let mut target = cell.coords.duplicate();
        target.insert(REPRESENTATION.to_string(), "label".to_string());
        let params = Some(self.params.duplicate());
        WorkItem {
            rule_id: concat("analyze:", self.kind.name()),
            converter: AI_SERVICE.to_string(),
            target_representation: "label".to_string(),
            target,
            value: cell.value.duplicate(),
            input_key: input_key(&cell.value, AI_SERVICE, &params),
            params,
        }
    }
}

fn slice_cells(m: &SpaceMachine, space: &str, fixed: &Coords) -> (r: Vec<SliceCell>)
    ensures
        views(r@) == sliced(m@, space@, fixed@).map_values(|c: CellView| slice_cell(c)),
{
    let cells = m.slice(space, fixed);
    let ghost all = sliced(m@, space@, fixed@);
    let mut r: Vec<SliceCell> = Vec::new();
    let mut i: usize = 0;
    while i < cells.len()
        invariant
            i <= cells.len(),
            all == sliced(m@, space@, fixed@),
            views(cells@) == all,
            r.len() == i,
            forall|j: int| 0 <= j < i ==> (#[trigger] r@[j])@ == slice_cell(all[j]),
        decreases cells.len() - i,
    {
        let c = cells[i];
        proof {
            assert(views(cells@)[i as int] == c@);
            cells_of(m@, space@).lemma_filter_pred(
                |c: CellView| c.value is Some && compatible(c.coords, fixed@),
                i as int,
            );
        }
        if let Some(value) = &c.value {
            r.push(SliceCell { coords: c.coords.duplicate(), value: value.duplicate() });
        }
        i += 1;
    }
    assert(views(r@) =~= all.map_values(|c: CellView| slice_cell(c)));
    r
}

/// The reply to a mutation once its snapshot was saved, or was not for the reason given.
pub open spec fn acknowledged(response: ResponseView, unsaved: Option<Text>) -> ResponseView {
    match unsaved {
        None => response,
        Some(e) => ResponseView::Error { error: "persist failed: "@ + e },
    }
}

/// The reply to a mutation once its snapshot was saved, or was not.
pub fn persisted(response: Response, saved: Result<(), String>) -> (r: Response)
    ensures
        saved is Ok ==> r@ == response@,
        saved matches Err(e) ==> r@ == (ResponseView::Error { error: "persist failed: "@ + e@ }),
        saved is Ok ==> r@ == acknowledged(response@, None),
        saved matches Err(e) ==> r@ == acknowledged(response@, Some(e@)),
{
    match saved {
        Ok(()) => response,
        Err(e) => Response::error(concat("persist failed: ", e.as_str())),
    }
}

/// What a reply of the analysis service comes to: a refusal outweighs a result.
pub open spec fn analysis_reply(
    decodable: bool,
    refusal: Option<Text>,
    result: Option<Text>,
) -> Result<Text, Text> {
    if !decodable {
        Err("undecodable grid.ai reply"@)
    } else if refusal is Some {
        Err("grid.ai refused: "@ + refusal->0)
    } else if result is Some {
        Ok(result->0)
    } else {
        Err("grid.ai reply lacks result"@)
    }
}

/// A cell as a question shows it.
pub open spec fn slice_cell_json(c: SliceCellView) -> Text {
    "{\"coords\":"@ + coords_json(c.coords) + ",\"value\":"@ + value_payload(c.value) + "}"@
}

/// The JSON of a question to the analysis service: an object, with the members of
/// every object in it in the order of their names.
pub open spec fn question_json(req: AiRequestView) -> Text {
    match req {
        AiRequestView::Compare { a, b, criteria } => "{\"a\":"@ + value_payload(a) + ",\"b\":"@
            + value_payload(b) + ",\"criteria\":"@ + quoted(criteria) + ",\"op\":\"compare\"}"@,
        AiRequestView::Summarize { cells } => "{\"cells\":["@ + join(
            cells.map_values(|c: SliceCellView| slice_cell_json(c)),
            ","@,
        ) + "],\"op\":\"summarize\"}"@,
        AiRequestView::Check { value, policy } => "{\"op\":\"check\",\"policy\":"@ + quoted(policy)
            + ",\"value\":"@ + value_payload(value) + "}"@,
        AiRequestView::Classify { value, labels } => "{\"labels\":"@ + labels
            + ",\"op\":\"classify\",\"value\":"@ + value_payload(value) + "}"@,
    }
}

fn slice_cell_text(c: &SliceCell) -> (t: String)
    ensures
        t@ == slice_cell_json(c@),
{
    let head = concat3("{\"coords\":", coords_text(&c.coords).as_str(), ",\"value\":");
    concat3(head.as_str(), payload_text(&c.value).as_str(), "}")
}

/// Write a question to the analysis service.
pub fn question_text(req: &AiRequest) -> (t: String)
    ensures
        t@ == question_json(req@),
{
    match req {
        AiRequest::Compare { a, b, criteria } => {
            let first = concat3("{\"a\":", payload_text(a).as_str(), ",\"b\":");
            let both = concat3(first.as_str(), payload_text(b).as_str(), ",\"criteria\":");
            concat3(both.as_str(), quote(criteria.as_str()).as_str(), ",\"op\":\"compare\"}")
        },
        AiRequest::Summarize { cells } => {
            let mut parts: Vec<String> = Vec::new();
            let mut i: usize = 0;
            while i < cells.len()
                invariant
                    i <= cells.len(),
                    parts.len() == i,
                    forall|j: int|
                        0 <= j < i ==> (#[trigger] parts@[j])@ == slice_cell_json(cells@[j]@),
                decreases cells.len() - i,
            {
                parts.push(slice_cell_text(&cells[i]));
                i += 1;
            }
            assert(Seq::new(parts@.len(), |i: int| parts@[i]@) =~= views(cells@).map_values(
                |c: SliceCellView| slice_cell_json(c),
            ));
            let list = join_text(&parts, ",");
            concat3("{\"cells\":[", list.as_str(), "],\"op\":\"summarize\"}")
        },
        AiRequest::Check { value, policy } => {
            let head = concat("{\"op\":\"check\",\"policy\":", quote(policy.as_str()).as_str());
            let valued = concat3(head.as_str(), ",\"value\":", payload_text(value).as_str());
            concat(valued.as_str(), "}")
        },
        AiRequest::Classify { value, labels } => {
            let head = concat("{\"labels\":", labels.text.as_str());
            let named = concat(head.as_str(), ",\"op\":\"classify\",\"value\":");
            concat3(named.as_str(), payload_text(value).as_str(), "}")
        },
    }
}

/// Judge a reply of the analysis service by whether it is JSON, by its `error` and
/// by its `result`.
pub fn judge_ai_reply(decodable: bool, refusal: Option<String>, result: Option<Json>) -> (r:
    Result<Json, String>)
    ensures
        view_result(r) == analysis_reply(decodable, view_opt(refusal), view_opt(result)),
{
    if !decodable {
        return Err("undecodable grid.ai reply".to_string());
    }
    if let Some(error) = refusal {
        return Err(concat("grid.ai refused: ", error.as_str()));
    }
    match result {
        Some(v) => Ok(v),
        None => Err("grid.ai reply lacks result".to_string()),
    }
}

/// What the bytes of a reply of the analysis service come to.
pub open spec fn analysis_answer(raw: Seq<u8>) -> Result<Text, Text> {
    match json_document(raw) {
        Some(reply) => analysis_reply(
            true,
            member_string(reply, "error"@),
            json_at(raw, "/result"@),
        ),
        None => analysis_reply(false, None, None),
    }
}

/// Read a reply of the analysis service: its result, or the complaint.
pub fn parse_ai_reply(raw: &[u8]) -> (r: Result<Json, String>)
    ensures
        view_result(r) == (match json_document(raw@) {
            Some(reply) => analysis_reply(
                true,
                member_string(reply, "error"@),
                json_at(raw@, "/result"@),
            ),
            None => analysis_reply(false, None, None),
        }),
        view_result(r) == analysis_answer(raw@),
{
    match Json::read(raw) {
        Some(reply) => {
            let refusal = member_text(&reply, "error");
            judge_ai_reply(true, refusal, Json::read_at(raw, "/result"))
        },
        None => judge_ai_reply(false, None, None),
    }
}

} // verus!
