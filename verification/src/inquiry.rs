//! What an analysis asks about, what it asks, and what it makes of the answers, told by the
//! cells of the space.

use vstd::prelude::*;

use crate::answers::lemma_kept_keys;
use crate::encode::coords_json;
use crate::json::{json_array, json_member, json_string, quoted};
use crate::materialize::memo_key;
use crate::planning::law_conversion_recorded;
use crate::proto::{ParamsView, RequestView, ResponseView};
use crate::reading::sound;
use crate::service::{
    analysis_begun, analysis_slice, analyzed_cells, answer_step, answered_service, by_cell,
    in_progress, next_question, reply_label, request_service, request_step, saved_verdict,
    shown_coords, verdict_item, AiRequestView, AnalysisView, AnalyzeJobView, ServiceView,
    SliceCellView, StepView,
};
use crate::space::{canonical_key, compatible, CellView, CoordsView, MachineView, ValueView};
use crate::text::{decimal, join, text_lt, Text};

verus! {

/// An analysis looks at exactly the live cells whose address has the fixed coordinate in
/// every dimension that both name and that, where no representation is fixed, stand on the
/// text plane or on none; in the order of their keys, with address and value. The keys come
/// back.
pub proof fn law_analyzed(m: MachineView, space: Text, fixed: CoordsView) -> (keys: Seq<Text>)
    requires
        m.spaces.contains_key(space),
        m.spaces[space].cells.dom().finite(),
    ensures
        ({
            let cells = m.spaces[space].cells;
            let seen = analyzed_cells(m, space, fixed);
            &&& seen.len() == keys.len()
            &&& forall|i: int|
                0 <= i < keys.len() ==> (#[trigger] seen[i]).coords == cells[keys[i]].coords
                    && Some(seen[i].value) == cells[keys[i]].value
            &&& forall|i: int, j: int|
                0 <= i < j < keys.len() ==> text_lt(#[trigger] keys[i], #[trigger] keys[j])
            &&& forall|k: Text| #[trigger]
                keys.contains(k) <==> {
                    &&& cells.contains_key(k)
                    &&& cells[k].value is Some
                    &&& forall|d: Text|
                        cells[k].coords.contains_key(d) && #[trigger] fixed.contains_key(d)
                            ==> cells[k].coords[d] == fixed[d]
                    &&& cells[k].coords.contains_key("representation"@) && !fixed.contains_key(
                        "representation"@,
                    ) ==> cells[k].coords["representation"@] == "text"@
                }
        }),
{
    let cells = m.spaces[space].cells;
    let slice = analysis_slice(fixed);
    let keep = |c: CellView| c.value is Some && compatible(c.coords, slice);
    let keys = lemma_kept_keys(cells, keep);
    let seen = analyzed_cells(m, space, fixed);
    assert forall|k: Text| #[trigger] keys.contains(k) <==> {
        &&& cells.contains_key(k)
        &&& cells[k].value is Some
        &&& forall|d: Text|
            cells[k].coords.contains_key(d) && #[trigger] fixed.contains_key(d)
                ==> cells[k].coords[d] == fixed[d]
        &&& cells[k].coords.contains_key("representation"@) && !fixed.contains_key(
            "representation"@,
        ) ==> cells[k].coords["representation"@] == "text"@
    } by {
        lemma_analysis_slice(fixed, cells[k].coords);
    }
    assert forall|i: int| 0 <= i < keys.len() implies (#[trigger] seen[i]).coords
        == cells[keys[i]].coords && Some(seen[i].value) == cells[keys[i]].value by {
        assert(keys.contains(keys[i]));
    }
    keys
}

proof fn lemma_analysis_slice(fixed: CoordsView, coords: CoordsView)
    ensures
        compatible(coords, analysis_slice(fixed)) <==> {
            &&& forall|d: Text|
                coords.contains_key(d) && #[trigger] fixed.contains_key(d) ==> coords[d]
                    == fixed[d]
            &&& coords.contains_key("representation"@) && !fixed.contains_key("representation"@)
                ==> coords["representation"@] == "text"@
        },
{
    let slice = analysis_slice(fixed);
    let rep = "representation"@;
    if compatible(coords, slice) {
        assert forall|d: Text|
            coords.contains_key(d) && #[trigger] fixed.contains_key(d) implies coords[d]
            == fixed[d] by {
            assert(slice.contains_key(d));
        }
        if coords.contains_key(rep) && !fixed.contains_key(rep) {
            assert(slice.contains_key(rep));
        }
    }
}

/// Whatever an analysis asks about agrees with all that the request fixes, and, where the
/// request fixes no representation, stands on the text plane or on none.
pub proof fn law_asked_about(
    s: ServiceView,
    op: Text,
    space: Text,
    fixed: CoordsView,
    params: Option<ParamsView>,
    i: int,
)
    requires
        s.machine.spaces.contains_key(space) ==> s.machine.spaces[space].cells.dom().finite(),
        request_step(
            s,
            s.self_node,
            RequestView::Analyze { space, op, fixed, params },
        ) matches StepView::Ask { job, .. } && 0 <= i < job.cells.len(),
    ensures
        request_step(
            s,
            s.self_node,
            RequestView::Analyze { space, op, fixed, params },
        ) matches StepView::Ask { job, .. } && {
            let c = job.cells[i].coords;
            &&& forall|d: Text|
                c.contains_key(d) && #[trigger] fixed.contains_key(d) ==> c[d] == fixed[d]
            &&& c.contains_key("representation"@) && !fixed.contains_key("representation"@)
                ==> c["representation"@] == "text"@
        },
{
    let keys = law_analyzed(s.machine, space, fixed);
    law_analysis_starts(s, op, space, fixed, params);
    assert(keys.contains(keys[i]));
}

/// How an analysis by the owner starts. One of a space that is not there, or of a slice
/// without cells, is turned down. To compare takes exactly two cells, and asks about their
/// values; to summarize asks about all cells; to check takes a policy, to classify a list of
/// labels, and both ask about the first cell first. Anything else is turned down. Nothing is
/// changed yet, and the job holds what the analysis looks at.
pub proof fn law_analysis_starts(
    s: ServiceView,
    op: Text,
    space: Text,
    fixed: CoordsView,
    params: Option<ParamsView>,
)
    ensures
        ({
            let req = RequestView::Analyze { space, op, fixed, params };
            let step = request_step(s, s.self_node, req);
            let cells = analyzed_cells(s.machine, space, fixed);
            let json = match params {
                Some(p) => p.json,
                None => "{}"@,
            };
            let string = |key: Text|
                match json_member(json, key) {
                    Some(member) => json_string(member),
                    None => None,
                };
            let refused = |error: Text|
                step == (StepView::Reply { response: ResponseView::Error { error } });
            let asks = |kind: AnalysisView, question: AiRequestView|
                {
                    &&& step matches StepView::Ask { job, request } && request == question
                        && job.kind == kind && job.space == space && job.params == json
                        && job.cells == cells && job.next == 0 && job.results.len() == 0
                        && job.written == 0
                };
            &&& request_service(s, s.self_node, req) == s
            &&& !s.machine.spaces.contains_key(space) ==> refused("no such space: "@ + space)
            &&& s.machine.spaces.contains_key(space) && cells.len() == 0 ==> refused(
                "nothing to analyze: slice "@ + shown_coords(
                    if fixed.contains_key("representation"@) {
                        fixed
                    } else {
                        fixed.insert("representation"@, "text"@)
                    },
                ) + " of '"@ + space + "' is empty (materialize first?)"@,
            )
            &&& s.machine.spaces.contains_key(space) && cells.len() > 0 ==> {
                &&& op == "compare"@ && cells.len() != 2 ==> refused(
                    "compare needs exactly 2 cells in the slice, found "@ + decimal(cells.len()),
                )
                &&& op == "compare"@ && cells.len() == 2 ==> asks(
                    AnalysisView::Compare,
                    AiRequestView::Compare {
                        a: cells[0].value,
                        b: cells[1].value,
                        criteria: match string("criteria"@) {
                            Some(c) => c,
                            None => Seq::empty(),
                        },
                    },
                )
                &&& op == "summarize"@ ==> asks(
                    AnalysisView::Summarize,
                    AiRequestView::Summarize { cells },
                )
                &&& op == "check"@ ==> match string("policy"@) {
                    Some(policy) => asks(
                        AnalysisView::Check { policy },
                        AiRequestView::Check { value: cells[0].value, policy },
                    ),
                    None => refused("check needs params.policy (the policy text)"@),
                }
                &&& op == "classify"@ ==> match params {
                    Some(ParamsView { labels: Some(labels), .. }) => if json_array(labels) {
                        asks(
                            AnalysisView::Classify { labels },
                            AiRequestView::Classify { value: cells[0].value, labels },
                        )
                    } else {
                        refused("classify needs params.labels (an array)"@)
                    },
                    _ => refused("classify needs params.labels (an array)"@),
                }
                &&& op != "compare"@ && op != "summarize"@ && op != "check"@ && op
                    != "classify"@ ==> refused(
                    "unknown analysis op '"@ + op + "' (compare|classify|summarize|check)"@,
                )
            }
        }),
{
    reveal_strlit("compare");
    reveal_strlit("summarize");
    reveal_strlit("check");
    reveal_strlit("classify");
    assert("compare"@.len() == 7 && "summarize"@.len() == 9 && "check"@.len() == 5
        && "classify"@.len() == 8);
}

/// How an analysis starts over cells that were read, with the criteria, the policy and the
/// labels given: to compare takes exactly two cells; to check takes a policy and to classify
/// labels, and without cells both reply at once with no result.
pub proof fn law_analysis_begins(
    space: Text,
    op: Text,
    cells: Seq<SliceCellView>,
    params: Text,
    criteria: Option<Text>,
    policy: Option<Text>,
    labels: Option<Text>,
)
    ensures
        ({
            let step = analysis_begun(space, op, cells, params, criteria, policy, labels);
            let refused = |error: Text|
                step == (StepView::Reply { response: ResponseView::Error { error } });
            let reports = |name: Text|
                step == (StepView::Reply {
                    response: ResponseView::Analysis {
                        result: "{\"op\":"@ + quoted(name) + ",\"results\":["@
                            + "],\"written\":"@ + decimal(0) + "}"@,
                    },
                });
            let asks = |kind: AnalysisView, question: AiRequestView|
                {
                    &&& step matches StepView::Ask { job, request } && request == question
                        && job.kind == kind && job.space == space && job.params == params
                        && job.cells == cells && job.next == 0 && job.results.len() == 0
                        && job.written == 0
                };
            &&& op == "compare"@ && cells.len() != 2 ==> refused(
                "compare needs exactly 2 cells in the slice, found "@ + decimal(cells.len()),
            )
            &&& op == "compare"@ && cells.len() == 2 ==> asks(
                AnalysisView::Compare,
                AiRequestView::Compare {
                    a: cells[0].value,
                    b: cells[1].value,
                    criteria: match criteria {
                        Some(c) => c,
                        None => Seq::empty(),
                    },
                },
            )
            &&& op == "summarize"@ ==> asks(
                AnalysisView::Summarize,
                AiRequestView::Summarize { cells },
            )
            &&& op == "check"@ ==> match policy {
                None => refused("check needs params.policy (the policy text)"@),
                Some(policy) => if cells.len() == 0 {
                    reports("check"@)
                } else {
                    asks(
                        AnalysisView::Check { policy },
                        AiRequestView::Check { value: cells[0].value, policy },
                    )
                },
            }
            &&& op == "classify"@ ==> match labels {
                None => refused("classify needs params.labels (an array)"@),
                Some(labels) => if cells.len() == 0 {
                    reports("classify"@)
                } else {
                    asks(
                        AnalysisView::Classify { labels },
                        AiRequestView::Classify { value: cells[0].value, labels },
                    )
                },
            }
            &&& op != "compare"@ && op != "summarize"@ && op != "check"@ && op != "classify"@
                ==> refused(
                "unknown analysis op '"@ + op + "' (compare|classify|summarize|check)"@,
            )
        }),
{
    reveal_strlit("compare");
    reveal_strlit("summarize");
    reveal_strlit("check");
    reveal_strlit("classify");
    assert("compare"@.len() == 7 && "summarize"@.len() == 9 && "check"@.len() == 5
        && "classify"@.len() == 8);
    assert(join(Seq::<Text>::empty(), ","@) =~= Seq::<char>::empty());
    let head = "{\"op\":"@ + quoted("check"@) + ",\"results\":["@;
    assert(head + Seq::<char>::empty() =~= head);
    let other = "{\"op\":"@ + quoted("classify"@) + ",\"results\":["@;
    assert(other + Seq::<char>::empty() =~= other);
}

/// An analysis that goes cell by cell can go on as soon as it asks.
pub proof fn law_analysis_ready(
    s: ServiceView,
    op: Text,
    space: Text,
    fixed: CoordsView,
    params: Option<ParamsView>,
)
    ensures
        request_step(
            s,
            s.self_node,
            RequestView::Analyze { space, op, fixed, params },
        ) matches StepView::Ask { job, .. } ==> in_progress(job) && (by_cell(job.kind) <==> job.kind
            is Check || job.kind is Classify),
{
}

/// An answer to a single question is the result of the analysis, and a failure its reply;
/// nothing is written.
pub proof fn law_single_answered(
    s: ServiceView,
    job: AnalyzeJobView,
    reply: Result<Text, Text>,
    label: Option<Text>,
)
    requires
        job.kind is Compare || job.kind is Summarize,
    ensures
        answered_service(s, job, reply, label) == s,
        reply matches Err(error) ==> answer_step(s, job, reply, label) == (StepView::Reply {
            response: ResponseView::Error { error },
        }),
        reply matches Ok(result) ==> job.kind is Compare ==> answer_step(s, job, reply, label) == (
        StepView::Reply {
            response: ResponseView::Analysis {
                result: "{\"op\":"@ + quoted("compare"@) + ",\"result\":"@ + result + "}"@,
            },
        }),
        reply matches Ok(result) ==> job.kind is Summarize ==> answer_step(s, job, reply, label)
            == (StepView::Reply {
            response: ResponseView::Analysis {
                result: "{\"op\":"@ + quoted("summarize"@) + ",\"result\":"@ + result + "}"@,
            },
        }),
{
}

/// What a check or a classification does next: it asks about the value of the next cell with
/// its policy or its labels, and after the last one it replies with the name of the op, all
/// results in turn, and the number of verdicts written.
pub proof fn law_next_question(job: AnalyzeJobView)
    requires
        job.kind is Check || job.kind is Classify,
    ensures
        job.next < job.cells.len() ==> {
            let value = job.cells[job.next as int].value;
            match job.kind {
                AnalysisView::Check { policy } => next_question(job) == (StepView::Ask {
                    job,
                    request: AiRequestView::Check { value, policy },
                }),
                AnalysisView::Classify { labels } => next_question(job) == (StepView::Ask {
                    job,
                    request: AiRequestView::Classify { value, labels },
                }),
                _ => false,
            }
        },
        job.next >= job.cells.len() ==> {
            let name = if job.kind is Check {
                "check"@
            } else {
                "classify"@
            };
            next_question(job) == (StepView::Reply {
                response: ResponseView::Analysis {
                    result: "{\"op\":"@ + quoted(name) + ",\"results\":["@ + join(
                        job.results,
                        ","@,
                    ) + "],\"written\":"@ + decimal(job.written) + "}"@,
                },
            })
        },
{
}

/// What a check or a classification makes of an answer about a cell: it reports the result or
/// the failure with the address of the cell and goes on to the next. With a label in the
/// answer a verdict is to be saved first; without one the service stays as it is.
pub proof fn law_cell_answered(
    s: ServiceView,
    job: AnalyzeJobView,
    reply: Result<Text, Text>,
    label: Option<Text>,
)
    requires
        job.kind is Check || job.kind is Classify,
        job.next < job.cells.len(),
    ensures
        ({
            let coords = coords_json(job.cells[job.next as int].coords);
            let line = match reply {
                Ok(result) => "{\"coords\":"@ + coords + ",\"result\":"@ + result + "}"@,
                Err(error) => "{\"coords\":"@ + coords + ",\"error\":"@ + quoted(error) + "}"@,
            };
            let told = AnalyzeJobView {
                space: job.space,
                kind: job.kind,
                params: job.params,
                cells: job.cells,
                next: job.next + 1,
                results: job.results.push(line),
                written: job.written,
            };
            let step = answer_step(s, job, reply, label);
            &&& reply is Ok && label is Some ==> (step matches StepView::SaveVerdict {
                job: now,
                accepted,
            } && now == told && accepted == s.machine.spaces.contains_key(job.space))
            &&& reply is Err || label is None ==> step == next_question(told)
            &&& reply is Err || label is None || !s.machine.spaces.contains_key(job.space)
                ==> answered_service(s, job, reply, label) == s
        }),
{
    let target = verdict_item(job).target;
    assert(target.contains_key("representation"@));
    assert(target != Map::<Text, Text>::empty());
}

/// The label of an answer about a cell is written at the same point on the label plane, as a
/// text, one past the clock in the name of the owner; its provenance names the analysis, the
/// analysis service, and the key of the value that was judged with the parameters. Every
/// other cell stays.
pub proof fn law_verdict_written(
    s: ServiceView,
    job: AnalyzeJobView,
    result: Text,
    label: Text,
    k: Text,
)
    requires
        sound(s.machine),
        s.machine.clock < u64::MAX,
        job.kind is Check || job.kind is Classify,
        job.next < job.cells.len(),
        s.machine.spaces.contains_key(job.space),
    ensures
        ({
            let cell = job.cells[job.next as int];
            let coords = cell.coords.insert("representation"@, "label"@);
            let at = canonical_key(coords);
            let after = answered_service(s, job, Ok(result), Some(label));
            let x = s.machine.spaces[job.space];
            let y = after.machine.spaces[job.space];
            &&& after.self_node == s.self_node
            &&& y.cells.contains_key(at)
            &&& y.cells[at].coords == coords
            &&& y.cells[at].value == Some(ValueView::Text { text: label })
            &&& y.cells[at].lamport == s.machine.clock + 1
            &&& y.cells[at].writer == s.self_node
            &&& y.derived.contains_key(at)
            &&& y.derived[at].rule_id == (if job.kind is Check {
                "analyze:"@ + "check"@
            } else {
                "analyze:"@ + "classify"@
            })
            &&& y.derived[at].converter == "grid.ai"@
            &&& y.derived[at].input_key == memo_key(cell.value, "grid.ai"@, Some(job.params))
            &&& k != at ==> y.cells.get(k) == x.cells.get(k) && y.derived.get(k) == x.derived.get(k)
        }),
{
    let item = verdict_item(job);
    assert(item.target.contains_key("representation"@));
    assert(item.target != Map::<Text, Text>::empty());
    law_conversion_recorded(s, job.space, item, ValueView::Text { text: label }, k);
}

/// A verdict counts as written only where it was accepted and its snapshot was saved; the
/// analysis then goes on with nothing else changed.
pub proof fn law_verdict_saved(job: AnalyzeJobView, accepted: bool, saved: bool)
    ensures
        !(accepted && saved) ==> saved_verdict(job, accepted, saved) == next_question(job),
        accepted && saved ==> saved_verdict(job, accepted, saved) == next_question(
            AnalyzeJobView {
                space: job.space,
                kind: job.kind,
                params: job.params,
                cells: job.cells,
                next: job.next,
                results: job.results,
                written: job.written + 1,
            },
        ),
{
}

/// The label of an answer is what the string under `label` in its result spells.
pub proof fn law_reply_label(reply: Result<Text, Text>)
    ensures
        reply is Err ==> reply_label(reply) is None,
        reply matches Ok(result) ==> reply_label(reply) == (match json_member(result, "label"@) {
            Some(member) => json_string(member),
            None => None,
        }),
{
}

} // verus!
