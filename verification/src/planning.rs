//! What a materialization asks for and what it leaves behind, told by the rules and cells
//! of the space.

use vstd::prelude::*;
use vstd::utf8::encode_utf8;

use crate::answers::lemma_kept_keys;
use crate::digest::{hex_text, sha256};
use crate::effects::law_written_here;
use crate::encode::value_json;
use crate::materialize::{
    all_pending, all_settled, input_text, memo_key, pending, records, selected_rules, settled,
    source_slice, up_to_date, work_for, WorkItemView,
};
use crate::proto::{RequestView, ResponseView};
use crate::reading::sound;
use crate::service::{
    conversion_counted, conversion_service, conversion_step, derived_outcome, next_conversion,
    request_service, request_step, saved_conversion, service_after, tallied, MaterializeJobView,
    ServiceView, StepView,
};
use crate::space::{
    canonical_key, cells_of, compatible, CellView, DerivationView, MachineView, RuleView, SpaceView,
    ValueView,
};
use crate::text::{text_lt, Text};

verus! {

proof fn lemma_filter_both<A>(
    s: Seq<A>,
    p: spec_fn(A) -> bool,
    q: spec_fn(A) -> bool,
    both: spec_fn(A) -> bool,
)
    requires
        forall|x: A| #[trigger] both(x) == (p(x) && q(x)),
    ensures
        s.filter(p).filter(q) == s.filter(both),
    decreases s.len(),
{
    reveal(Seq::filter);
    if s.len() > 0 {
        lemma_filter_both(s.drop_last(), p, q, both);
        assert(both(s.last()) == (p(s.last()) && q(s.last())));
        if p(s.last()) {
            assert(s.filter(p).drop_last() =~= s.drop_last().filter(p));
        }
    }
}

/// A live cell that a rule reads, whose target is up to date, or is not.
spec fn read_by(s: SpaceView, r: Text, k: Text, done: bool) -> bool {
    let rule = s.rules[r];
    let c = s.cells[k];
    &&& s.cells.contains_key(k)
    &&& c.value is Some
    &&& compatible(c.coords, source_slice(rule))
    &&& up_to_date(s, rule, c) == done
}

proof fn lemma_rule_keys(m: MachineView, space: Text, r: Text, done: bool) -> (keys: Seq<Text>)
    requires
        m.spaces.contains_key(space),
        m.spaces[space].cells.dom().finite(),
    ensures
        ({
            let s = m.spaces[space];
            let rule = s.rules[r];
            &&& !done ==> pending(m, space, rule).len() == keys.len()
            &&& !done ==> forall|i: int|
                0 <= i < keys.len() ==> #[trigger] pending(m, space, rule)[i] == work_for(
                    rule,
                    s.cells[keys[i]],
                )
            &&& done ==> settled(m, space, rule) == keys.len()
            &&& forall|i: int, j: int|
                0 <= i < j < keys.len() ==> text_lt(#[trigger] keys[i], #[trigger] keys[j])
            &&& forall|k: Text| #[trigger] keys.contains(k) <==> read_by(s, r, k, done)
        }),
{
    let s = m.spaces[space];
    let rule = s.rules[r];
    let fixed = source_slice(rule);
    let p = |c: CellView| c.value is Some && compatible(c.coords, fixed);
    let both = |c: CellView|
        c.value is Some && compatible(c.coords, fixed) && up_to_date(s, rule, c) == done;
    let keys = lemma_kept_keys(s.cells, both);
    if done {
        let q = |c: CellView| up_to_date(m.spaces[space], rule, c);
        lemma_filter_both(cells_of(m, space), p, q, both);
    } else {
        let q = |c: CellView| !up_to_date(m.spaces[space], rule, c);
        lemma_filter_both(cells_of(m, space), p, q, both);
    }
    keys
}

/// Pairs in the order of their first text, and of their second where the first is the same.
spec fn pairs_ascend(pairs: Seq<(Text, Text)>) -> bool {
    forall|i: int, j: int|
        0 <= i < j < pairs.len() ==> text_lt((#[trigger] pairs[i]).0, (#[trigger] pairs[j]).0) || (
        pairs[i].0 == pairs[j].0 && text_lt(pairs[i].1, pairs[j].1))
}

proof fn lemma_pairs(m: MachineView, space: Text, ids: Seq<Text>, done: bool) -> (pairs: Seq<
    (Text, Text),
>)
    requires
        m.spaces.contains_key(space),
        m.spaces[space].cells.dom().finite(),
        forall|i: int, j: int|
            0 <= i < j < ids.len() ==> text_lt(#[trigger] ids[i], #[trigger] ids[j]),
    ensures
        ({
            let s = m.spaces[space];
            let rules = ids.map_values(|r: Text| s.rules[r]);
            &&& !done ==> all_pending(m, space, rules).len() == pairs.len()
            &&& !done ==> forall|i: int|
                0 <= i < pairs.len() ==> #[trigger] all_pending(m, space, rules)[i] == work_for(
                    s.rules[pairs[i].0],
                    s.cells[pairs[i].1],
                )
            &&& done ==> all_settled(m, space, rules) == pairs.len()
            &&& pairs_ascend(pairs)
            &&& forall|r: Text, k: Text| #[trigger]
                pairs.contains((r, k)) <==> ids.contains(r) && read_by(s, r, k, done)
        }),
    decreases ids.len(),
{
    let s = m.spaces[space];
    let value = |r: Text| s.rules[r];
    let rules = ids.map_values(value);
    if ids.len() == 0 {
        Seq::empty()
    } else {
        let rest = ids.drop_last();
        let id = ids.last();
        let before = lemma_pairs(m, space, rest, done);
        let keys = lemma_rule_keys(m, space, id, done);
        let new = keys.map_values(|k: Text| (id, k));
        let pairs = before + new;
        assert(rules.drop_last() =~= rest.map_values(value));
        assert(rules.last() == s.rules[id]);
        assert forall|r: Text, k: Text| #[trigger] pairs.contains((r, k)) <==> ids.contains(r)
            && read_by(s, r, k, done) by {
            if pairs.contains((r, k)) {
                let i = choose|i: int| 0 <= i < pairs.len() && pairs[i] == (r, k);
                if i < before.len() {
                    assert(before[i] == (r, k));
                    assert(before.contains((r, k)));
                    let j = choose|j: int| 0 <= j < rest.len() && rest[j] == r;
                    assert(ids[j] == r);
                } else {
                    assert(new[i - before.len()] == (r, k));
                    assert(keys[i - before.len()] == k);
                    assert(keys.contains(k));
                    assert(ids[ids.len() - 1] == r);
                }
            }
            if ids.contains(r) && read_by(s, r, k, done) {
                let j = choose|j: int| 0 <= j < ids.len() && ids[j] == r;
                if j < rest.len() {
                    assert(rest[j] == r);
                    assert(before.contains((r, k)));
                    let i = choose|i: int| 0 <= i < before.len() && before[i] == (r, k);
                    assert(pairs[i] == (r, k));
                } else {
                    assert(keys.contains(k));
                    let i = choose|i: int| 0 <= i < keys.len() && keys[i] == k;
                    assert(new[i] == (r, k));
                    assert(pairs[before.len() + i] == (r, k));
                }
            }
        }
        assert forall|i: int, j: int| 0 <= i < j < pairs.len() implies text_lt(
            (#[trigger] pairs[i]).0,
            (#[trigger] pairs[j]).0,
        ) || (pairs[i].0 == pairs[j].0 && text_lt(pairs[i].1, pairs[j].1)) by {
            if j < before.len() {
                assert(before[i] == pairs[i] && before[j] == pairs[j]);
            } else if i < before.len() {
                assert(before[i] == pairs[i]);
                assert(before.contains((pairs[i].0, pairs[i].1)));
                let p = choose|p: int| 0 <= p < rest.len() && rest[p] == pairs[i].0;
                assert(text_lt(ids[p], ids[ids.len() - 1]));
            } else {
                assert(text_lt(keys[i - before.len()], keys[j - before.len()]));
            }
        }
        if !done {
            assert forall|i: int| 0 <= i < pairs.len() implies #[trigger] all_pending(
                m,
                space,
                rules,
            )[i] == work_for(s.rules[pairs[i].0], s.cells[pairs[i].1]) by {
                if i < before.len() {
                    assert(all_pending(m, space, rules)[i] == all_pending(
                        m,
                        space,
                        rules.drop_last(),
                    )[i]);
                    assert(before[i] == pairs[i]);
                } else {
                    assert(all_pending(m, space, rules)[i] == pending(m, space, rules.last())[i
                        - before.len()]);
                }
            }
        }
        pairs
    }
}

/// What a plan asks for, rule by rule in the order of their ids and cell by cell in the
/// order of their keys. A rule that is wanted reads every live cell whose address has the
/// source coordinate in each dimension that both name, and, where the source names no
/// representation, none but the raw one. What it makes of the cell belongs at the same
/// point on its target plane. That is due unless the provenance there names the key of
/// value, converter and parameters; and whatever is due is asked for once. The rule and the
/// cell of each item come back, and those of each target that is up to date.
pub proof fn law_planned(m: MachineView, space: Text, only: Option<Text>) -> (r: (
    Seq<(Text, Text)>,
    Seq<(Text, Text)>,
))
    requires
        m.spaces.contains_key(space),
        m.spaces[space].cells.dom().finite(),
        m.spaces[space].rules.dom().finite(),
    ensures
        ({
            let s = m.spaces[space];
            let items = all_pending(m, space, selected_rules(m, space, only));
            let (due, done) = r;
            &&& items.len() == due.len()
            &&& forall|i: int|
                0 <= i < items.len() ==> {
                    let rule = s.rules[due[i].0];
                    let cell = s.cells[due[i].1];
                    let item = #[trigger] items[i];
                    &&& item.rule_id == rule.id
                    &&& item.converter == rule.converter
                    &&& item.target_representation == rule.target_representation
                    &&& item.params == rule.params
                    &&& Some(item.value) == cell.value
                    &&& item.target == cell.coords.insert(
                        "representation"@,
                        rule.target_representation,
                    )
                    &&& item.input_key == memo_key(item.value, rule.converter, rule.params)
                }
            &&& forall|i: int, j: int|
                0 <= i < j < due.len() ==> text_lt((#[trigger] due[i]).0, (#[trigger] due[j]).0)
                    || (due[i].0 == due[j].0 && text_lt(due[i].1, due[j].1))
            &&& all_settled(m, space, selected_rules(m, space, only)) == done.len()
            &&& done.no_duplicates()
            &&& forall|id: Text, k: Text|
                ({
                    let rule = s.rules[id];
                    let cell = s.cells[k];
                    let at = canonical_key(
                        cell.coords.insert("representation"@, rule.target_representation),
                    );
                    let read = {
                        &&& s.rules.contains_key(id)
                        &&& only matches Some(wanted) ==> rule.id == wanted
                        &&& s.cells.contains_key(k)
                        &&& cell.value is Some
                        &&& forall|d: Text| #[trigger]
                            cell.coords.contains_key(d) && rule.source.contains_key(d)
                                ==> cell.coords[d] == rule.source[d]
                        &&& cell.coords.contains_key("representation"@)
                            && !rule.source.contains_key("representation"@)
                            ==> cell.coords["representation"@] == "raw"@
                    };
                    let fresh = s.derived.contains_key(at) && s.derived[at].input_key == memo_key(
                        cell.value->0,
                        rule.converter,
                        rule.params,
                    );
                    &&& #[trigger] due.contains((id, k)) <==> read && !fresh
                    &&& done.contains((id, k)) <==> read && fresh
                })
        }),
{
    let s = m.spaces[space];
    let keep = |r: RuleView| only is None || r.id == only->0;
    let ids = lemma_kept_keys(s.rules, keep);
    let rules = selected_rules(m, space, only);
    assert(rules == ids.map_values(|r: Text| s.rules[r]));
    let due = lemma_pairs(m, space, ids, false);
    let done = lemma_pairs(m, space, ids, true);
    assert(done.no_duplicates()) by {
        assert forall|i: int, j: int|
            0 <= i < done.len() && 0 <= j < done.len() && i != j implies done[i] != done[j] by {
            crate::text::lemma_text_lt_irreflexive(done[i].0);
            crate::text::lemma_text_lt_irreflexive(done[i].1);
            if i < j {
                assert(text_lt(done[i].0, done[j].0) || (done[i].0 == done[j].0 && text_lt(
                    done[i].1,
                    done[j].1,
                )));
            } else {
                assert(text_lt(done[j].0, done[i].0) || (done[j].0 == done[i].0 && text_lt(
                    done[j].1,
                    done[i].1,
                )));
            }
        }
    }
    let items = all_pending(m, space, rules);
    assert forall|i: int| 0 <= i < items.len() implies ({
        let rule = s.rules[due[i].0];
        let cell = s.cells[due[i].1];
        let item = #[trigger] items[i];
        &&& item == work_for(rule, cell)
        &&& cell.value is Some
    }) by {
        assert(due.contains((due[i].0, due[i].1)));
        assert(read_by(s, due[i].0, due[i].1, false));
    }
    assert forall|id: Text, k: Text|
        ({
            let rule = s.rules[id];
            let cell = s.cells[k];
            let at = canonical_key(
                cell.coords.insert("representation"@, rule.target_representation),
            );
            let read = {
                &&& s.rules.contains_key(id)
                &&& only matches Some(wanted) ==> rule.id == wanted
                &&& s.cells.contains_key(k)
                &&& cell.value is Some
                &&& forall|d: Text| #[trigger]
                    cell.coords.contains_key(d) && rule.source.contains_key(d) ==> cell.coords[d]
                        == rule.source[d]
                &&& cell.coords.contains_key("representation"@) && !rule.source.contains_key(
                    "representation"@,
                ) ==> cell.coords["representation"@] == "raw"@
            };
            let fresh = s.derived.contains_key(at) && s.derived[at].input_key == memo_key(
                cell.value->0,
                rule.converter,
                rule.params,
            );
            &&& #[trigger] due.contains((id, k)) <==> read && !fresh
            &&& done.contains((id, k)) <==> read && fresh
        }) by {
        lemma_source_slice(s.rules[id], s.cells[k]);
        assert(ids.contains(id) <==> s.rules.contains_key(id) && keep(s.rules[id]));
        assert(done.contains((id, k)) <==> ids.contains(id) && read_by(s, id, k, true));
    }
    (due, done)
}

proof fn lemma_source_slice(rule: RuleView, cell: CellView)
    ensures
        compatible(cell.coords, source_slice(rule)) <==> {
            &&& forall|d: Text| #[trigger]
                cell.coords.contains_key(d) && rule.source.contains_key(d) ==> cell.coords[d]
                    == rule.source[d]
            &&& cell.coords.contains_key("representation"@) && !rule.source.contains_key(
                "representation"@,
            ) ==> cell.coords["representation"@] == "raw"@
        },
{
    let fixed = source_slice(rule);
    let rep = "representation"@;
    if compatible(cell.coords, fixed) {
        assert forall|d: Text| #[trigger]
            cell.coords.contains_key(d) && rule.source.contains_key(d) implies cell.coords[d]
            == rule.source[d] by {
            assert(fixed.contains_key(d));
        }
        if cell.coords.contains_key(rep) && !rule.source.contains_key(rep) {
            assert(fixed.contains_key(rep));
        }
    }
}

/// Every item of a plan comes from a rule that is wanted and from a live cell that agrees
/// with the source of the rule wherever both name a dimension, and that stands on the raw
/// plane or on none unless the source names a representation.
pub proof fn law_planned_from_source(m: MachineView, space: Text, only: Option<Text>, i: int)
    requires
        m.spaces.contains_key(space),
        m.spaces[space].cells.dom().finite(),
        m.spaces[space].rules.dom().finite(),
        0 <= i < all_pending(m, space, selected_rules(m, space, only)).len(),
    ensures
        ({
            let s = m.spaces[space];
            let item = all_pending(m, space, selected_rules(m, space, only))[i];
            exists|id: Text, k: Text|
                {
                    let rule = s.rules[id];
                    let cell = s.cells[k];
                    &&& #[trigger] s.rules.contains_key(id)
                    &&& #[trigger] s.cells.contains_key(k)
                    &&& only matches Some(wanted) ==> rule.id == wanted
                    &&& item.rule_id == rule.id
                    &&& cell.value == Some(item.value)
                    &&& item.target == cell.coords.insert(
                        "representation"@,
                        rule.target_representation,
                    )
                    &&& forall|d: Text| #[trigger]
                        cell.coords.contains_key(d) && rule.source.contains_key(d)
                            ==> cell.coords[d] == rule.source[d]
                    &&& cell.coords.contains_key("representation"@) && !rule.source.contains_key(
                        "representation"@,
                    ) ==> cell.coords["representation"@] == "raw"@
                }
        }),
{
    let s = m.spaces[space];
    let (due, done) = law_planned(m, space, only);
    let items = all_pending(m, space, selected_rules(m, space, only));
    let item = items[i];
    let id = due[i].0;
    let k = due[i].1;
    assert(due.contains((id, k)));
    assert(s.rules.contains_key(id) && s.cells.contains_key(k));
}

/// A space that is not there has nothing to plan.
pub proof fn law_nothing_planned(m: MachineView, space: Text, only: Option<Text>)
    requires
        !m.spaces.contains_key(space),
    ensures
        all_pending(m, space, selected_rules(m, space, only)).len() == 0,
        all_settled(m, space, selected_rules(m, space, only)) == 0,
{
}

/// The memoization key is the SHA-256 digest, in hexadecimal, of the value as JSON, the
/// converter and the parameters, with the unit separator between them.
pub proof fn law_memo_key(value: ValueView, converter: Text, params: Option<Text>)
    ensures
        params matches Some(p) ==> memo_key(value, converter, params) == hex_text(
            sha256(encode_utf8(value_json(value) + "\u{1f}"@ + converter + "\u{1f}"@ + p)),
        ),
        params is None ==> memo_key(value, converter, params) == hex_text(
            sha256(encode_utf8(value_json(value) + "\u{1f}"@ + converter + "\u{1f}"@)),
        ),
        params matches Some(p) ==> input_text(value, converter, params) == value_json(value)
            + "\u{1f}"@ + converter + "\u{1f}"@ + p,
        params is None ==> input_text(value, converter, params) == value_json(value) + "\u{1f}"@
            + converter + "\u{1f}"@,
{
    let head = value_json(value) + "\u{1f}"@ + converter + "\u{1f}"@;
    assert(head + Seq::<char>::empty() =~= head);
}

/// Provenance is on record for a key exactly where it stands there and names the key.
pub proof fn law_recorded(derived: Map<Text, DerivationView>, at: Text, key: Text)
    ensures
        records(derived, at, key) <==> derived.contains_key(at) && derived[at].input_key == key,
{
}

/// A materialization by the owner starts with what the plan asks for, all of it still to be
/// converted; with nothing to convert it is answered at once; and one of a space that is not
/// there is turned down. It changes nothing itself.
pub proof fn law_materialization_starts(s: ServiceView, space: Text, rule: Option<Text>)
    ensures
        ({
            let m = s.machine;
            let rules = selected_rules(m, space, rule);
            let items = all_pending(m, space, rules);
            let step = request_step(s, s.self_node, RequestView::Materialize { space, rule });
            &&& request_service(s, s.self_node, RequestView::Materialize { space, rule }) == s
            &&& !m.spaces.contains_key(space) ==> step == (StepView::Reply {
                response: ResponseView::Error { error: "no such space: "@ + space },
            })
            &&& m.spaces.contains_key(space) && items.len() == 0 ==> step == (StepView::Reply {
                response: ResponseView::Materialized {
                    written: 0,
                    skipped: all_settled(m, space, rules),
                    failed: 0,
                },
            })
            &&& m.spaces.contains_key(space) && items.len() > 0 ==> step == (StepView::Convert {
                job: MaterializeJobView {
                    space,
                    items,
                    next: 0,
                    written: 0,
                    skipped: all_settled(m, space, rules),
                    failed: 0,
                },
            })
        }),
{
}

/// A job that waits for a conversion has an item for it and has counted all before: so from
/// its start, and after every conversion.
pub proof fn law_job_ready(
    s: ServiceView,
    space: Text,
    rule: Option<Text>,
    job: MaterializeJobView,
    success: bool,
)
    requires
        tallied(job),
        job.next < job.items.len(),
    ensures
        request_step(
            s,
            s.self_node,
            RequestView::Materialize { space, rule },
        ) matches StepView::Convert { job: first } ==> tallied(first) && first.next
            < first.items.len(),
        next_conversion(conversion_counted(job, success)) matches StepView::Convert { job: now }
            ==> tallied(now) && now.next < now.items.len(),
        tallied(job) <==> job.next <= job.items.len() && job.written + job.failed == job.next,
{
}

/// A conversion that is behind a job counts once, as written where it succeeded and as
/// failed where it did not; then the next item is due, or the reply with the counts.
pub proof fn law_conversion_counts(job: MaterializeJobView, success: bool)
    ensures
        ({
            let step = next_conversion(conversion_counted(job, success));
            let written = if success {
                job.written + 1
            } else {
                job.written
            };
            let failed = if success {
                job.failed
            } else {
                job.failed + 1
            };
            &&& job.next + 1 < job.items.len() ==> {
                &&& step matches StepView::Convert { job: now } && now.next == job.next + 1
                    && now.items == job.items && now.space == job.space && now.written == written
                    && now.failed == failed && now.skipped == job.skipped
            }
            &&& job.next + 1 >= job.items.len() ==> {
                &&& step matches StepView::Reply { response } && response matches
                    ResponseView::Materialized { written: w, skipped, failed: f } && w == written
                    && skipped == job.skipped && f == failed
            }
        }),
{
}

/// After a converter was called for the next item of a job, a value is recorded at its target
/// and waits to be saved; it is accepted where the space is there. Without a value the item
/// counts as failed and nothing changes.
pub proof fn law_conversion_step(s: ServiceView, job: MaterializeJobView, value: ValueView)
    requires
        job.next < job.items.len(),
        job.items[job.next as int].target != Map::<Text, Text>::empty(),
    ensures
        conversion_step(s, job, Some(value)) == (StepView::SaveConverted {
            job,
            accepted: s.machine.spaces.contains_key(job.space),
        }),
        conversion_service(s, job, Some(value)) == service_after(
            s,
            derived_outcome(s, job.space, job.items[job.next as int], value),
        ),
        conversion_step(s, job, None) == next_conversion(conversion_counted(job, false)),
        conversion_service(s, job, None) == s,
{
}

/// A conversion counts as written only where it was accepted and its snapshot was saved.
pub proof fn law_conversion_saved(job: MaterializeJobView)
    ensures
        saved_conversion(job, true, true) == next_conversion(conversion_counted(job, true)),
        saved_conversion(job, true, false) == next_conversion(conversion_counted(job, false)),
        saved_conversion(job, false, true) == next_conversion(conversion_counted(job, false)),
        saved_conversion(job, false, false) == next_conversion(conversion_counted(job, false)),
{
}

/// A converted value is taken where the space is there, and then stands at the target of its
/// item, one past the clock in the name of the owner, with the rule, the converter and the
/// key of the item for provenance; every other cell stays. Where the space is not there,
/// nothing changes.
pub proof fn law_conversion_recorded(
    s: ServiceView,
    space: Text,
    item: WorkItemView,
    value: ValueView,
    k: Text,
)
    requires
        sound(s.machine),
        s.machine.clock < u64::MAX,
        item.target != Map::<Text, Text>::empty(),
    ensures
        ({
            let h = derived_outcome(s, space, item, value);
            let after = service_after(s, h);
            let at = canonical_key(item.target);
            let x = s.machine.spaces[space];
            let y = after.machine.spaces[space];
            &&& after.self_node == s.self_node
            &&& !s.machine.spaces.contains_key(space) ==> h.response is Error && after == s
            &&& s.machine.spaces.contains_key(space) ==> {
                &&& h.response == ResponseView::Done
                &&& y.cells.contains_key(at)
                &&& y.cells[at].coords == item.target
                &&& y.cells[at].value == Some(value)
                &&& y.cells[at].lamport == s.machine.clock + 1
                &&& y.cells[at].writer == s.self_node
                &&& y.derived.contains_key(at)
                &&& y.derived[at].rule_id == item.rule_id
                &&& y.derived[at].converter == item.converter
                &&& y.derived[at].input_key == item.input_key
                &&& y.rules == x.rules
                &&& k != at ==> y.cells.get(k) == x.cells.get(k) && y.derived.get(k)
                    == x.derived.get(k)
            }
        }),
{
    let derivation = DerivationView {
        rule_id: item.rule_id,
        converter: item.converter,
        input_key: item.input_key,
    };
    if s.machine.spaces.contains_key(space) {
        let req = RequestView::SetDerived { space, coords: item.target, value, derivation };
        law_written_here(
            s.machine,
            s.self_node,
            req,
            space,
            item.target,
            Some(value),
            Some(derivation),
            k,
        );
    }
}

} // verus!
