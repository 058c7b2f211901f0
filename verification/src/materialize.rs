//! Derivation materialization: project raw cells onto other representation
//! coordinates by way of converters located on the mesh.
//!
//! Results are content-addressed and memoized: a derived cell records the hash of
//! (input value, converter, params), and planning skips targets whose stored key is
//! unchanged.

use vstd::prelude::*;
use vstd::utf8::encode_utf8;

use crate::digest::{hex_encode, hex_text, is_hex, lemma_hex_text, sha256, sha256_bytes};
use crate::encode::{concat3, payload_text, value_json, value_payload, value_text};
use crate::json::{json_at, json_document, member_string, member_text, quote, quoted, Json};
use crate::sorted_map::{key_order, values_in_order, views, Duplicate, SortedMap};
use crate::space::{
    canonical_key, cell_key, cells_of, compatible, duplicate_opt, lemma_filter_step, sliced,
    view_opt, view_result, Cell, CellView, Coords, CoordsView, Derivation, DerivationView,
    MachineView, Rule, RuleView, Space, SpaceMachine, SpaceView, Value, ValueView, RAW,
    REPRESENTATION,
};
use crate::text::{concat, same_text, Text};

verus! {

/// One pending conversion: source cell value to target coordinates.
#[derive(Debug, Clone)]
pub struct WorkItem {
    pub rule_id: String,
    pub converter: String,
    pub target_representation: String,
    pub target: Coords,
    pub value: Value,
    pub params: Option<Json>,
    pub input_key: String,
}

/// What a `WorkItem` stands for.
#[verifier::ext_equal]
pub struct WorkItemView {
    pub rule_id: Text,
    pub converter: Text,
    pub target_representation: Text,
    pub target: CoordsView,
    pub value: ValueView,
    pub params: Option<Text>,
    pub input_key: Text,
}

impl View for WorkItem {
    type V = WorkItemView;

    open spec fn view(&self) -> WorkItemView {
        WorkItemView {
            rule_id: self.rule_id@,
            converter: self.converter@,
            target_representation: self.target_representation@,
            target: self.target@,
            value: self.value@,
            params: view_opt(self.params),
            input_key: self.input_key@,
        }
    }
}

/// What is hashed into a memoization key: the value as JSON, the converter and the
/// parameters, with the unit separator between them.
pub open spec fn input_text(value: ValueView, converter: Text, params: Option<Text>) -> Text {
    value_json(value) + "\u{1f}"@ + converter + "\u{1f}"@ + (match params {
        Some(p) => p,
        None => Seq::empty(),
    })
}

/// The memoization key: the SHA-256 digest of value, converter and parameters, in
/// hexadecimal.
pub open spec fn memo_key(value: ValueView, converter: Text, params: Option<Text>) -> Text {
    hex_text(sha256(encode_utf8(input_text(value, converter, params))))
}

/// Write out what is hashed into a memoization key.
pub fn hashed_input(value: &Value, converter: &str, params: &Option<Json>) -> (t: String)
    ensures
        t@ == input_text(value@, converter@, view_opt(*params)),
{
    let value = value_text(value);
    let head = concat3(value.as_str(), "\u{1f}", converter);
    match params {
        Some(p) => concat3(head.as_str(), "\u{1f}", p.text.as_str()),
        None => {
            let t = concat(head.as_str(), "\u{1f}");
            assert(t@ =~= t@ + Seq::<char>::empty());
            t
        },
    }
}

/// The memoization key: hash of (value, converter, params), as 64 lower-case
/// hexadecimal digits.
pub fn input_key(value: &Value, converter: &str, params: &Option<Json>) -> (key: String)
    ensures
        key@ == memo_key(value@, converter@, view_opt(*params)),
        key@.len() == 64,
        forall|i: int| 0 <= i < key@.len() ==> is_hex(#[trigger] key@[i]),
{
    let input = hashed_input(value, converter, params);
    let digest = sha256_bytes(input.as_str().as_bytes());
    proof {
        lemma_hex_text(digest@);
    }
    hex_encode(digest.as_slice())
}

/// The slice that a rule reads: its own fixed dimensions, and the raw plane unless
/// it fixes a representation itself.
pub open spec fn source_slice(rule: RuleView) -> CoordsView {
    if rule.source.contains_key(REPRESENTATION@) {
        rule.source
    } else {
        rule.source.insert(REPRESENTATION@, RAW@)
    }
}

/// The address that a rule derives from a cell: the same point on the target plane.
pub open spec fn derived_coords(rule: RuleView, cell: CellView) -> CoordsView {
    cell.coords.insert(REPRESENTATION@, rule.target_representation)
}

/// The memoization key of what a rule derives from a cell.
pub open spec fn derived_key(rule: RuleView, cell: CellView) -> Text {
    memo_key(cell.value->0, rule.converter, rule.params)
}

/// The conversion that a rule asks of a cell.
pub open spec fn work_for(rule: RuleView, cell: CellView) -> WorkItemView {
    WorkItemView {
        rule_id: rule.id,
        converter: rule.converter,
        target_representation: rule.target_representation,
        target: derived_coords(rule, cell),
        value: cell.value->0,
        params: rule.params,
        input_key: derived_key(rule, cell),
    }
}

/// Does the provenance on record already name the key?
pub open spec fn records(derived: Map<Text, DerivationView>, at: Text, key: Text) -> bool {
    derived.contains_key(at) && derived[at].input_key == key
}

/// Is what a rule derives from a cell up to date?
pub open spec fn up_to_date(s: SpaceView, rule: RuleView, cell: CellView) -> bool {
    records(s.derived, canonical_key(derived_coords(rule, cell)), derived_key(rule, cell))
}

/// The cells that a rule reads, in key order.
pub open spec fn sources(m: MachineView, space: Text, rule: RuleView) -> Seq<CellView> {
    sliced(m, space, source_slice(rule))
}

/// The conversions that a rule still needs.
pub open spec fn pending(m: MachineView, space: Text, rule: RuleView) -> Seq<WorkItemView> {
    sources(m, space, rule).filter(|c: CellView| !up_to_date(m.spaces[space], rule, c)).map_values(
        |c: CellView| work_for(rule, c),
    )
}

/// How many targets of a rule are up to date.
pub open spec fn settled(m: MachineView, space: Text, rule: RuleView) -> nat {
    sources(m, space, rule).filter(|c: CellView| up_to_date(m.spaces[space], rule, c)).len()
}

/// The conversions that several rules still need, rule by rule.
pub open spec fn all_pending(m: MachineView, space: Text, rules: Seq<RuleView>) -> Seq<
    WorkItemView,
>
    decreases rules.len(),
{
    if rules.len() == 0 {
        Seq::empty()
    } else {
        all_pending(m, space, rules.drop_last()) + pending(m, space, rules.last())
    }
}

/// How many targets of several rules are up to date.
pub open spec fn all_settled(m: MachineView, space: Text, rules: Seq<RuleView>) -> nat
    decreases rules.len(),
{
    if rules.len() == 0 {
        0
    } else {
        all_settled(m, space, rules.drop_last()) + settled(m, space, rules.last())
    }
}

/// How many targets several rules have in a space.
pub open spec fn all_targets(m: MachineView, space: Text, rules: Seq<RuleView>) -> nat
    decreases rules.len(),
{
    if rules.len() == 0 {
        0
    } else {
        all_targets(m, space, rules.drop_last()) + sources(m, space, rules.last()).len()
    }
}

/// The rules of a space that planning looks at, in the order of their ids.
pub open spec fn selected_rules(m: MachineView, space: Text, only: Option<Text>) -> Seq<RuleView> {
    if m.spaces.contains_key(space) {
        values_in_order(m.spaces[space].rules).filter(
            |r: RuleView| only is None || r.id == only->0,
        )
    } else {
        Seq::empty()
    }
}

/// Can the targets of the selected rules be counted?
pub open spec fn countable(m: MachineView, space: Text, only: Option<Text>) -> bool {
    all_targets(m, space, selected_rules(m, space, only)) <= usize::MAX
}

/// What an optional text slice stands for.
pub open spec fn view_str(s: Option<&str>) -> Option<Text> {
    match s {
        Some(s) => Some(s@),
        None => None,
    }
}

/// Does the provenance on record already name the key?
pub fn is_recorded(derived: &SortedMap<Derivation>, at: &str, key: &str) -> (r: bool)
    ensures
        r == records(derived@, at@, key@),
{
    match derived.get(at) {
        Some(d) => same_text(d.input_key.as_str(), key),
        None => false,
    }
}

fn source_coords(rule: &Rule) -> (fixed: Coords)
    ensures
        fixed@ == source_slice(rule@),
{
    let mut fixed = rule.source.duplicate();
    if !fixed.contains_key(REPRESENTATION) {
        fixed.insert(REPRESENTATION.to_string(), RAW.to_string());
    }
    fixed
}

proof fn lemma_targets_grow(
    m: MachineView,
    space: Text,
    rules: Seq<RuleView>,
    keep: spec_fn(RuleView) -> bool,
    i: int,
)
    requires
        0 <= i <= rules.len(),
    ensures
        all_targets(m, space, rules.take(i).filter(keep)) <= all_targets(
            m,
            space,
            rules.filter(keep),
        ),
    decreases rules.len() - i,
{
    if i < rules.len() {
        let chosen = rules.take(i).filter(keep);
        lemma_filter_step(rules, keep, i);
        assert(chosen.push(rules[i]).drop_last() =~= chosen);
        lemma_targets_grow(m, space, rules, keep, i + 1);
    } else {
        assert(rules.take(i) =~= rules);
    }
}

/// The conversion that a rule still needs of a live cell, unless its target is up
/// to date.
fn plan_cell(s: &Space, rule: &Rule, cell: &Cell) -> (item: Option<WorkItem>)
    requires
        cell.value is Some,
    ensures
        item is None <==> up_to_date(s@, rule@, cell@),
        item matches Some(w) ==> w@ == work_for(rule@, cell@),
{
    match &cell.value {
        Some(value) => {
            let mut target = cell.coords.duplicate();
            target.insert(REPRESENTATION.to_string(), rule.target_representation.clone());
            let key = input_key(value, rule.converter.as_str(), &rule.params);
            let target_key = cell_key(&target);
            if is_recorded(&s.derived, target_key.as_str(), key.as_str()) {
                return None;
            }
            Some(
                WorkItem {
                    rule_id: rule.id.clone(),
                    converter: rule.converter.clone(),
                    target_representation: rule.target_representation.clone(),
                    target,
                    value: value.duplicate(),
                    params: duplicate_opt(&rule.params),
                    input_key: key,
                },
            )
        },
        None => None,
    }
}

/// Plan one rule: append what it still needs and count what is up to date.
fn plan_rule(
    m: &SpaceMachine,
    space: &str,
    s: &Space,
    rule: &Rule,
    items: &mut Vec<WorkItem>,
) -> (skipped: usize)
    requires
        m@.spaces.contains_key(space@),
        m@.spaces[space@] == s@,
    ensures
        views(final(items)@) == views(old(items)@) + pending(m@, space@, rule@),
        skipped == settled(m@, space@, rule@),
        skipped <= sources(m@, space@, rule@).len(),
{
    let fixed = source_coords(rule);
    let cells = m.slice(space, &fixed);
    let ghost all = sources(m@, space@, rule@);
    let ghost before = views(items@);
    let ghost due = |c: CellView| !up_to_date(s@, rule@, c);
    let ghost done = |c: CellView| up_to_date(s@, rule@, c);
    let ghost make = |c: CellView| work_for(rule@, c);
    let mut skipped: usize = 0;
    let mut i: usize = 0;
    proof {
        assert(all.take(0) =~= Seq::<CellView>::empty());
        reveal(Seq::filter);
        assert(views(items@) =~= before + all.take(0).filter(due).map_values(make));
    }
    while i < cells.len()
        invariant
            i <= cells.len(),
            m@.spaces.contains_key(space@),
            m@.spaces[space@] == s@,
            all == sources(m@, space@, rule@),
            views(cells@) == all,
            due == (|c: CellView| !up_to_date(s@, rule@, c)),
            done == (|c: CellView| up_to_date(s@, rule@, c)),
            make == (|c: CellView| work_for(rule@, c)),
            views(items@) == before + all.take(i as int).filter(due).map_values(make),
            skipped == all.take(i as int).filter(done).len(),
            skipped <= i,
        decreases cells.len() - i,
    {
        let cell = cells[i];
        proof {
            assert(views(cells@)[i as int] == cell@);
            lemma_filter_step(all, due, i as int);
            lemma_filter_step(all, done, i as int);
            let fixed = source_slice(rule@);
            cells_of(m@, space@).lemma_filter_pred(
                |c: CellView| c.value is Some && compatible(c.coords, fixed),
                i as int,
            );
        }
        match plan_cell(s, rule, cell) {
            Some(item) => {
                let ghost held = all.take(i as int).filter(due);
                let ghost had = items@;
                items.push(item);
                proof {
                    assert(views(items@) =~= views(had).push(item@));
                    assert(held.push(cell@).map_values(make) =~= held.map_values(make).push(item@));
                    assert(views(items@) =~= before + held.push(cell@).map_values(make));
                }
            },
            None => {
                skipped += 1;
            },
        }
        i += 1;
    }
    proof {
        assert(all.take(cells.len() as int) =~= all);
    }
    skipped
}

/// Plan pending work for a space. Returns the items and how many targets are up to
/// date and left alone.
pub fn plan(m: &SpaceMachine, space: &str, rule_filter: Option<&str>) -> (r: (
    Vec<WorkItem>,
    usize,
))
    requires
        countable(m@, space@, view_str(rule_filter)),
    ensures
        views(r.0@) == all_pending(
            m@,
            space@,
            selected_rules(m@, space@, view_str(rule_filter)),
        ),
        r.1 == all_settled(m@, space@, selected_rules(m@, space@, view_str(rule_filter))),
{
    let mut items: Vec<WorkItem> = Vec::new();
    let mut skipped: usize = 0;
    let s = match m.spaces.get(space) {
        Some(s) => s,
        None => {
            assert(views(items@) =~= Seq::<WorkItemView>::empty());
            return (items, skipped);
        },
    };
    let ghost only = view_str(rule_filter);
    let ghost keep = |r: RuleView| only is None || r.id == only->0;
    let ghost rules = values_in_order(s@.rules);
    let n: usize = s.rules.len();
    let mut i: usize = 0;
    proof {
        assert(rules.take(0) =~= Seq::<RuleView>::empty());
        reveal(Seq::filter);
        assert(rules.take(0).filter(keep) =~= Seq::<RuleView>::empty());
        assert(views(items@) =~= Seq::<WorkItemView>::empty());
    }
    while i < n
        invariant
            i <= n,
            n == key_order(s@.rules.dom()).len(),
            all_targets(m@, space@, rules.filter(keep)) <= usize::MAX,
            m@.spaces.contains_key(space@),
            m@.spaces[space@] == s@,
            rules == values_in_order(s@.rules),
            only == view_str(rule_filter),
            keep == (|r: RuleView| only is None || r.id == only->0),
            views(items@) == all_pending(m@, space@, rules.take(i as int).filter(keep)),
            skipped == all_settled(m@, space@, rules.take(i as int).filter(keep)),
            skipped <= all_targets(m@, space@, rules.take(i as int).filter(keep)),
        decreases n - i,
    {
        let rule = s.rules.value_at(i);
        let wanted = match rule_filter {
            Some(f) => same_text(rule.id.as_str(), f),
            None => true,
        };
        let ghost chosen = rules.take(i as int).filter(keep);
        proof {
            lemma_filter_step(rules, keep, i as int);
            assert(chosen.push(rule@).drop_last() =~= chosen);
            lemma_targets_grow(m@, space@, rules, keep, i + 1);
        }
        if wanted {
            let more: usize = plan_rule(m, space, s, rule, &mut items);
            skipped += more;
        }
        i += 1;
    }
    assert(rules.take(n as int) =~= rules);
    (items, skipped)
}

/// The topic on which a converter listens.
pub fn converter_topic(converter: &str) -> (topic: String)
    ensures
        topic@ == converter@ + "/ctl"@,
{
    concat(converter, "/ctl")
}

/// The JSON of optional parameters: `null` where there are none.
pub open spec fn params_json(params: Option<Text>) -> Text {
    match params {
        Some(p) => p,
        None => "null"@,
    }
}

/// The request that a converter gets for an item: a JSON object, with the members of
/// every object in it in the order of their names.
pub open spec fn convert_request_json(item: WorkItemView) -> Text {
    "{\"op\":\"convert\",\"params\":"@ + params_json(item.params) + ",\"target\":"@ + quoted(
        item.target_representation,
    ) + ",\"value\":"@ + value_payload(item.value) + "}"@
}

/// Write the request that a converter gets for an item.
pub fn convert_request(item: &WorkItem) -> (t: String)
    ensures
        t@ == convert_request_json(item@),
{
    let head = match &item.params {
        Some(p) => concat("{\"op\":\"convert\",\"params\":", p.text.as_str()),
        None => concat("{\"op\":\"convert\",\"params\":", "null"),
    };
    let target = quote(item.target_representation.as_str());
    let aimed = concat3(head.as_str(), ",\"target\":", target.as_str());
    let valued = concat3(aimed.as_str(), ",\"value\":", payload_text(&item.value).as_str());
    concat(valued.as_str(), "}")
}

/// What a converter's reply comes to: a refusal outweighs a value.
pub open spec fn converter_reply(
    decodable: bool,
    refusal: Option<Text>,
    value: Option<Text>,
) -> Result<Text, Text> {
    if !decodable {
        Err("undecodable converter reply"@)
    } else if refusal is Some {
        Err("converter refused: "@ + refusal->0)
    } else if value is Some {
        Ok(value->0)
    } else {
        Err("converter reply lacks result.value"@)
    }
}

/// Judge a converter's reply by whether it is JSON, by its `error` and by its
/// `result.value`.
pub fn judge_convert_reply(decodable: bool, refusal: Option<String>, value: Option<Json>) -> (r:
    Result<Json, String>)
    ensures
        view_result(r) == converter_reply(decodable, view_opt(refusal), view_opt(value)),
{
    if !decodable {
        return Err("undecodable converter reply".to_string());
    }
    if let Some(error) = refusal {
        return Err(concat("converter refused: ", error.as_str()));
    }
    match value {
        Some(v) => Ok(v),
        None => Err("converter reply lacks result.value".to_string()),
    }
}

/// What the bytes of a converter's reply come to.
pub open spec fn convert_answer(raw: Seq<u8>) -> Result<Text, Text> {
    match json_document(raw) {
        Some(reply) => converter_reply(
            true,
            member_string(reply, "error"@),
            json_at(raw, "/result/value"@),
        ),
        None => converter_reply(false, None, None),
    }
}

/// Read a converter's reply: the JSON of the converted value, or the complaint.
pub fn parse_convert_reply(raw: &[u8]) -> (r: Result<Json, String>)
    ensures
        view_result(r) == (match json_document(raw@) {
            Some(reply) => converter_reply(
                true,
                member_string(reply, "error"@),
                json_at(raw@, "/result/value"@),
            ),
            None => converter_reply(false, None, None),
        }),
        view_result(r) == convert_answer(raw@),
{
    match Json::read(raw) {
        Some(reply) => {
            let refusal = member_text(&reply, "error");
            judge_convert_reply(true, refusal, Json::read_at(raw, "/result/value"))
        },
        None => judge_convert_reply(false, None, None),
    }
}

} // verus!
