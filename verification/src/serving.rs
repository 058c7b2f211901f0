//! What holds of the requests that an instance serves: what a request leaves as it
//! was, what its log replays to, who may write, and what materialization and
//! analysis account for.

use vstd::prelude::*;
use vstd::utf8::{encode_utf8, encode_utf8_decode_utf8, is_ascii_chars, is_ascii_chars_encode_utf8};

use crate::addressing::law_planes_apart;
use crate::convergence::{agree, law_convergence, replay, stamps_tell_apart};
use crate::materialize::{
    all_pending, all_targets, selected_rules, source_slice, WorkItemView,
};
use crate::memo::law_plan_complete;
use crate::proto::{
    answer, machine_after, next_stamped, objection, outcome, requested_op, RequestView,
    ResponseView,
};
use crate::reading::{cell_in_place, finite_request, law_provenance, law_sound_served, sound};
use crate::service::{
    acknowledged, analysis_name, answer_step, answered_service, by_cell, can_shorten, cell_reported,
    conversion_counted, derived_outcome, derived_request, failure, in_progress, mutating,
    next_conversion, next_question, request_service, request_step, service_after, shortened,
    serviceable, short_len, tallied, unread, verdict_item, verdict_outcome, write_refusal, AnalyzeJobView,
    MaterializeJobView, ServiceView, StepView, AI_SERVICE, AI_TOPIC, CTL_TOPIC, SERVICE,
};
use crate::sorted_map::{lemma_key_order_len, values_in_order};
use crate::space::{
    applied, canonical_key, cells_of, compatible, op_stamp, CellView, DerivationView, MachineView,
    OpView, RuleView, StampedView, ValueView, RAW, REPRESENTATION,
};
use crate::text::Text;

verus! {

/// A request that asks for no op changes nothing, yields no op, and is answered alike
/// for every writer.
pub proof fn law_reads_leave_no_trace(
    m: MachineView,
    writer: Text,
    other: Text,
    req: RequestView,
)
    requires
        requested_op(req) is None,
    ensures
        outcome(m, writer, req).op is None,
        machine_after(m, outcome(m, writer, req).op) == m,
        outcome(m, writer, req) == outcome(m, other, req),
{
}

/// A request that is answered with an error changes nothing and yields no op.
pub proof fn law_errors_leave_no_trace(m: MachineView, writer: Text, req: RequestView)
    requires
        outcome(m, writer, req).response is Error,
    ensures
        outcome(m, writer, req).op is None,
        machine_after(m, outcome(m, writer, req).op) == m,
{
}

/// A request is acknowledged exactly where an op came of it.
pub proof fn law_acknowledged(m: MachineView, writer: Text, req: RequestView)
    ensures
        outcome(m, writer, req).response == ResponseView::Done <==> outcome(m, writer, req).op
            is Some,
{
}

/// A local op is stamped past everything the machine has seen, and the machine then
/// stands at that stamp; so the next stamp exceeds the stamp of every op applied.
pub proof fn law_stamps_advance(m: MachineView, seen: StampedView, writer: Text, op: OpView)
    requires
        applied(m, seen).clock < u64::MAX,
    ensures
        next_stamped(applied(m, seen), writer, op).lamport > seen.lamport,
        next_stamped(applied(m, seen), writer, op).lamport > m.clock,
        ({
            let n = applied(m, seen);
            applied(n, next_stamped(n, writer, op)).clock == n.clock + 1
        }),
{
}

/// The machine after a run of requests.
pub open spec fn served(m: MachineView, writer: Text, reqs: Seq<RequestView>) -> MachineView
    decreases reqs.len(),
{
    if reqs.len() == 0 {
        m
    } else {
        let before = served(m, writer, reqs.drop_last());
        machine_after(before, outcome(before, writer, reqs.last()).op)
    }
}

/// The ops that come of a run of requests.
pub open spec fn logged(m: MachineView, writer: Text, reqs: Seq<RequestView>) -> Seq<StampedView>
    decreases reqs.len(),
{
    if reqs.len() == 0 {
        Seq::empty()
    } else {
        let before = served(m, writer, reqs.drop_last());
        let log = logged(m, writer, reqs.drop_last());
        match outcome(before, writer, reqs.last()).op {
            Some(op) => log.push(op),
            None => log,
        }
    }
}

/// The log tells all: replaying the ops that came of a run of requests on the machine
/// that the run started from leads to the machine that it ended in.
pub proof fn law_log_replays(m: MachineView, writer: Text, reqs: Seq<RequestView>)
    ensures
        replay(m, logged(m, writer, reqs)) == served(m, writer, reqs),
    decreases reqs.len(),
{
    if reqs.len() > 0 {
        law_log_replays(m, writer, reqs.drop_last());
        let before = served(m, writer, reqs.drop_last());
        let log = logged(m, writer, reqs.drop_last());
        if let Some(op) = outcome(before, writer, reqs.last()).op {
            assert(log.push(op).drop_last() =~= log);
        }
    }
}

/// In the log of a run of requests every op has the writer's name and a stamp higher
/// than all before it, so that no two ops share a stamp.
pub proof fn law_log_ascends(m: MachineView, writer: Text, reqs: Seq<RequestView>)
    requires
        m.clock + reqs.len() <= u64::MAX,
    ensures
        ({
            let log = logged(m, writer, reqs);
            &&& served(m, writer, reqs).clock == m.clock + log.len()
            &&& log.len() <= reqs.len()
            &&& forall|i: int| #![trigger log[i]] 0 <= i < log.len() ==> log[i].writer == writer
                && log[i].lamport == m.clock + i + 1
            &&& stamps_tell_apart(log)
        }),
    decreases reqs.len(),
{
    let log = logged(m, writer, reqs);
    if reqs.len() > 0 {
        law_log_ascends(m, writer, reqs.drop_last());
    }
    assert forall|a: StampedView, b: StampedView| #[trigger]
        log.contains(a) && #[trigger] log.contains(b) && op_stamp(a) == op_stamp(b) implies agree(
        a,
        b,
    ) by {
        let i = choose|i: int| 0 <= i < log.len() && log[i] == a;
        let j = choose|j: int| 0 <= j < log.len() && log[j] == b;
        assert(log[i].lamport == m.clock + i + 1);
        assert(log[j].lamport == m.clock + j + 1);
    }
}

/// A replica follows an instance: whatever the order and however often the ops of an
/// instance's log are delivered to it, it ends as the same machine.
pub proof fn law_replica_follows(
    m: MachineView,
    writer: Text,
    reqs: Seq<RequestView>,
    delivered: Seq<StampedView>,
)
    requires
        m.clock + reqs.len() <= u64::MAX,
        delivered.to_set() == logged(m, writer, reqs).to_set(),
    ensures
        replay(m, delivered) == served(m, writer, reqs),
{
    law_log_replays(m, writer, reqs);
    law_log_ascends(m, writer, reqs);
    law_convergence(m, logged(m, writer, reqs), delivered);
}

/// Everything but a plain read is refused to a node that is not the owner, and a
/// refusal changes nothing.
pub proof fn law_remote_writes_refused(s: ServiceView, from: Text, req: RequestView)
    requires
        mutating(req),
        from != s.self_node,
    ensures
        request_step(s, from, req) == failure(write_refusal(from, s.self_node)),
        request_service(s, from, req) == s,
{
}

/// A plain read is answered at once, to every caller alike, and changes nothing.
pub proof fn law_reads_open(s: ServiceView, from: Text, req: RequestView)
    requires
        !mutating(req),
    ensures
        request_step(s, from, req) == (StepView::Reply {
            response: match objection(s.machine, req) {
                Some(error) => ResponseView::Error { error },
                None => answer(s.machine, req),
            },
        }),
        request_service(s, from, req) == s,
{
}

/// What changes the spaces is saved before it is acknowledged: a request after whose
/// first step the service is not as it was goes on to save a snapshot, and one that
/// is answered at once leaves the service as it was.
pub proof fn law_changes_are_saved(s: ServiceView, from: Text, req: RequestView)
    ensures
        request_service(s, from, req) != s ==> request_step(s, from, req) is Save,
        request_step(s, from, req) is Reply ==> request_service(s, from, req) == s,
        request_step(s, from, req) is Save ==> from == s.self_node,
{
}

/// A service whose spaces are sound keeps them so, by a request and by the record of a
/// converted value.
pub proof fn law_service_stays_sound(
    s: ServiceView,
    from: Text,
    req: RequestView,
    space: Text,
    item: WorkItemView,
    value: ValueView,
)
    requires
        sound(s.machine),
        finite_request(req),
        item.target.dom().finite(),
    ensures
        sound(request_service(s, from, req).machine),
        sound(service_after(s, derived_outcome(s, space, item, value)).machine),
{
    law_sound_served(s.machine, s.self_node, req);
    law_sound_served(s.machine, s.self_node, derived_request(space, item, value));
}

/// The node id of a service never changes.
pub proof fn law_owner_stays(
    s: ServiceView,
    from: Text,
    req: RequestView,
    job: AnalyzeJobView,
    reply: Result<Text, Text>,
    label: Option<Text>,
)
    ensures
        request_service(s, from, req).self_node == s.self_node,
        answered_service(s, job, reply, label).self_node == s.self_node,
{
}

/// A node id in ASCII can be shown, by its first eight characters.
pub proof fn law_ascii_ids_shorten(id: Text)
    requires
        is_ascii_chars(id),
    ensures
        can_shorten(id),
        shortened(id) == id.take(if id.len() < 8 {
            id.len() as int
        } else {
            8
        }),
{
    is_ascii_chars_encode_utf8(id);
    let n = short_len(id);
    let head = id.take(n);
    is_ascii_chars_encode_utf8(head);
    assert(encode_utf8(head) =~= encode_utf8(id).take(n));
    encode_utf8_decode_utf8(head);
    vstd::utf8::encode_utf8_valid_utf8(id);
    vstd::utf8::is_char_boundary_start_end_of_seq(encode_utf8(id));
    if id.len() > 8 {
        vstd::utf8::is_char_boundary_iff_not_is_continuation_byte(encode_utf8(id), n);
    }
}

/// A materialization after a run of conversions, each a success or not.
pub open spec fn conversions_counted(
    job: MaterializeJobView,
    successes: Seq<bool>,
) -> MaterializeJobView
    decreases successes.len(),
{
    if successes.len() == 0 {
        job
    } else {
        conversion_counted(conversions_counted(job, successes.drop_last()), successes.last())
    }
}

/// How many of a run of conversions succeeded.
pub open spec fn succeeded(successes: Seq<bool>) -> nat {
    successes.filter(|b: bool| b).len()
}

/// A materialization asks for every item in turn, and its reply counts each of them
/// once, as written or as failed, beside those that were up to date.
pub proof fn law_materialization_accounts(job: MaterializeJobView, successes: Seq<bool>)
    requires
        job.next == 0,
        job.written == 0,
        job.failed == 0,
        successes.len() <= job.items.len(),
    ensures
        ({
            let now = conversions_counted(job, successes);
            &&& tallied(now)
            &&& now.items == job.items
            &&& now.next == successes.len()
            &&& successes.len() < job.items.len() ==> next_conversion(now) == (StepView::Convert {
                job: now,
            })
            &&& successes.len() == job.items.len() ==> next_conversion(now) == (StepView::Reply {
                response: ResponseView::Materialized {
                    written: succeeded(successes),
                    skipped: job.skipped,
                    failed: (job.items.len() - succeeded(successes)) as nat,
                },
            })
        }),
{
    lemma_conversions_counted(job, successes);
}

proof fn lemma_conversions_counted(job: MaterializeJobView, successes: Seq<bool>)
    requires
        job.next == 0,
        job.written == 0,
        job.failed == 0,
        successes.len() <= job.items.len(),
    ensures
        ({
            let now = conversions_counted(job, successes);
            &&& tallied(now)
            &&& now.items == job.items
            &&& now.skipped == job.skipped
            &&& now.next == successes.len()
            &&& now.written == succeeded(successes)
        }),
    decreases successes.len(),
{
    reveal(Seq::filter);
    if successes.len() > 0 {
        lemma_conversions_counted(job, successes.drop_last());
    }
}

/// A materialization of a space in which nothing is due is answered at once: nothing
/// written, nothing failed, all up to date.
pub proof fn law_nothing_due(s: ServiceView, space: Text, rule: Option<Text>)
    requires
        s.machine.spaces.contains_key(space),
        all_pending(s.machine, space, selected_rules(s.machine, space, rule)).len() == 0,
    ensures
        request_step(s, s.self_node, RequestView::Materialize { space, rule })
            == (StepView::Reply {
            response: ResponseView::Materialized {
                written: 0,
                skipped: all_targets(s.machine, space, selected_rules(s.machine, space, rule)),
                failed: 0,
            },
        }),
{
    law_plan_complete(s.machine, space, rule);
}

/// A job once its verdict was saved, or was not.
pub open spec fn verdict_counted(job: AnalyzeJobView, success: bool) -> AnalyzeJobView {
    AnalyzeJobView {
        written: if success {
            job.written + 1
        } else {
            job.written
        },
        ..job
    }
}

/// A cell-by-cell analysis asks about every cell in turn and reports on each: after
/// each answer it stands one cell further, with one result more and with no more
/// verdicts written than cells behind it; with the last cell it is done.
pub proof fn law_analysis_advances(
    s: ServiceView,
    job: AnalyzeJobView,
    reply: Result<Text, Text>,
    label: Option<Text>,
    success: bool,
)
    requires
        by_cell(job.kind),
        in_progress(job),
    ensures
        ({
            let step = answer_step(s, job, reply, label);
            let told = cell_reported(job, reply);
            let now = if step is SaveVerdict {
                verdict_counted(told, success)
            } else {
                told
            };
            &&& step matches StepView::SaveVerdict { job: j, .. } ==> j == told
            &&& !(step is SaveVerdict) ==> step == next_question(now)
            &&& now.kind == job.kind && now.cells == job.cells && now.next == job.next + 1
            &&& now.results.len() == now.next && now.results.drop_last() == job.results
            &&& now.written <= now.next <= now.cells.len()
            &&& now.next < now.cells.len() ==> in_progress(now) && next_question(now) is Ask
            &&& now.next == now.cells.len() ==> next_question(now) is Reply
        }),
{
    assert(cell_reported(job, reply).results.drop_last() =~= job.results);
}

/// A verdict on a cell is read back at the same point on the label plane, as a
/// text with its provenance; and the cell that it is about, unless it stands on the
/// label plane itself, still stands.
pub proof fn law_verdict_beside_cell(s: ServiceView, job: AnalyzeJobView, label: Text, k: Text)
    requires
        sound(s.machine),
        s.machine.clock < u64::MAX,
        by_cell(job.kind),
        in_progress(job),
        s.machine.spaces.contains_key(job.space),
        s.machine.spaces[job.space].cells.contains_key(k),
        s.machine.spaces[job.space].cells[k].coords == job.cells[job.next as int].coords,
    ensures
        ({
            let coords = job.cells[job.next as int].coords;
            let h = verdict_outcome(s, job, label);
            let n = machine_after(s.machine, h.op).spaces[job.space];
            let at = canonical_key(coords.insert(REPRESENTATION@, "label"@));
            &&& h.response == ResponseView::Done
            &&& n.cells.contains_key(at)
            &&& n.cells[at].coords == coords.insert(REPRESENTATION@, "label"@)
            &&& n.cells[at].value == Some(ValueView::Text { text: label })
            &&& n.derived.contains_key(at)
            &&& n.derived[at].rule_id == "analyze:"@ + analysis_name(job.kind)
            &&& n.derived[at].input_key == verdict_item(job).input_key
            &&& coords != coords.insert(REPRESENTATION@, "label"@) ==> n.cells.contains_key(k)
                && n.cells[k] == s.machine.spaces[job.space].cells[k]
        }),
{
    let m = s.machine;
    let item = verdict_item(job);
    let coords = job.cells[job.next as int].coords;
    let value = ValueView::Text { text: label };
    let derivation = DerivationView {
        rule_id: item.rule_id,
        converter: item.converter,
        input_key: item.input_key,
    };
    assert(cell_in_place(m.spaces[job.space], m.clock, k));
    assert(item.target.contains_key(REPRESENTATION@));
    assert(item.target != Map::<Text, Text>::empty());
    law_provenance(m, s.self_node, job.space, item.target, value, derivation);
    if coords != item.target {
        if coords.contains_key(REPRESENTATION@) && coords[REPRESENTATION@] == "label"@ {
            assert(item.target =~= coords);
        }
        law_planes_apart(coords, REPRESENTATION@, "label"@);
    }
}

/// Only five requests are open to every node: to list the spaces, to describe one, to read a
/// point or a slice, and to list the rules. They are answered at once, alike for every caller,
/// by what the machine answers. Any other request of a node that is not the owner is refused
/// with both ids shown. Neither changes anything.
pub proof fn law_who_is_served(s: ServiceView, from: Text, req: RequestView)
    ensures
        req is Spaces || req is Describe || req is Get || req is Slice || req is Rules
            ==> request_step(s, from, req) == (StepView::Reply {
            response: outcome(s.machine, s.self_node, req).response,
        }) && request_service(s, from, req) == s,
        !(req is Spaces || req is Describe || req is Get || req is Slice || req is Rules) && from
            != s.self_node ==> request_step(s, from, req) == (StepView::Reply {
            response: ResponseView::Error {
                error: "write refused: v1 accepts writes only from the owning node (caller "@
                    + shortened(from) + ", owner "@ + shortened(s.self_node)
                    + "). Fix: run the ce-grid CLI on the owning node; cap-gated remote writes (grid:write) are the documented next step."@,
            },
        }) && request_service(s, from, req) == s,
{
}

/// What the owner asks to change is changed by the machine in the name of the owner; what was
/// changed is saved before it is acknowledged, and what was turned down is answered at once.
pub proof fn law_owner_is_served(s: ServiceView, req: RequestView)
    requires
        !(req is Materialize || req is Analyze),
    ensures
        ({
            let h = outcome(s.machine, s.self_node, req);
            let after = request_service(s, s.self_node, req);
            &&& after.self_node == s.self_node
            &&& after.machine == machine_after(s.machine, h.op)
            &&& h.op is Some ==> request_step(s, s.self_node, req) == (StepView::Save {
                response: h.response,
            })
            &&& h.op is None ==> request_step(s, s.self_node, req) == (StepView::Reply {
                response: h.response,
            }) && after == s
        }),
{
}

/// The names under which an instance and the analysis service are found.
pub proof fn law_names()
    ensures
        SERVICE@ == "ce.grid"@,
        CTL_TOPIC@ == "grid/ctl"@,
        AI_SERVICE@ == "grid.ai"@,
        AI_TOPIC@ == "grid.ai/ctl"@,
        REPRESENTATION@ == "representation"@,
        RAW@ == "raw"@,
{
}

/// A change that could not be saved is not acknowledged: the reply is the reason. A request
/// that was not read is answered with the reason too.
pub proof fn law_failures_told(response: ResponseView, e: Text)
    ensures
        acknowledged(response, None) == response,
        acknowledged(response, Some(e)) == (ResponseView::Error {
            error: "persist failed: "@ + e,
        }),
        unread(e) == (StepView::Reply {
            response: ResponseView::Error { error: "bad request: "@ + e },
        }),
{
}

proof fn lemma_targets_bounded(m: MachineView, space: Text, rules: Seq<RuleView>)
    requires
        m.spaces.contains_key(space),
        m.spaces[space].cells.dom().finite(),
    ensures
        all_targets(m, space, rules) <= rules.len() * m.spaces[space].cells.dom().len(),
    decreases rules.len(),
{
    let n = m.spaces[space].cells.dom().len();
    if rules.len() > 0 {
        let all = cells_of(m, space);
        let fixed = source_slice(rules.last());
        lemma_targets_bounded(m, space, rules.drop_last());
        lemma_key_order_len(m.spaces[space].cells.dom());
        all.lemma_filter_len(|c: CellView| c.value is Some && compatible(c.coords, fixed));
        assert((rules.len() - 1) * n + n == rules.len() * n) by (nonlinear_arith)
            requires
                rules.len() > 0,
        ;
    } else {
        assert(0 * n == 0) by (nonlinear_arith);
    }
}

/// What the service can take: every plain read; every other request of the owner while the
/// clock can advance, and to materialize a space whose rules and cells can be counted; and
/// every refusal between nodes with ids in ASCII.
pub proof fn law_serviceable(s: ServiceView, from: Text, req: RequestView)
    requires
        req matches RequestView::Materialize { space, .. } ==> s.machine.spaces.contains_key(space)
            ==> s.machine.spaces[space].rules.dom().finite()
            && s.machine.spaces[space].cells.dom().finite()
            && s.machine.spaces[space].rules.dom().len()
            * s.machine.spaces[space].cells.dom().len() <= usize::MAX,
    ensures
        req is Spaces || req is Describe || req is Get || req is Slice || req is Rules
            ==> serviceable(s, from, req),
        from == s.self_node && s.machine.clock < u64::MAX ==> serviceable(s, from, req),
        is_ascii_chars(from) && is_ascii_chars(s.self_node) && from != s.self_node ==> serviceable(
            s,
            from,
            req,
        ),
{
    if is_ascii_chars(from) && is_ascii_chars(s.self_node) {
        law_ascii_ids_shorten(from);
        law_ascii_ids_shorten(s.self_node);
    }
    if let RequestView::Materialize { space, rule } = req {
        let m = s.machine;
        if m.spaces.contains_key(space) {
            let rules = values_in_order(m.spaces[space].rules);
            let chosen = selected_rules(m, space, rule);
            lemma_targets_bounded(m, space, chosen);
            lemma_key_order_len(m.spaces[space].rules.dom());
            rules.lemma_filter_len(|r: RuleView| rule is None || r.id == rule->0);
            let n = m.spaces[space].cells.dom().len();
            assert(chosen.len() * n <= rules.len() * n) by (nonlinear_arith)
                requires
                    chosen.len() <= rules.len(),
            ;
        }
    }
}

} // verus!
