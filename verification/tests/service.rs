use ce_grid::json::Json;
use ce_grid::materialize::{input_key, WorkItem};
use ce_grid::proto::{Params, Request, Response};
use ce_grid::service::{
    begin_analysis, judge_ai_reply, mutates, parse_ai_reply, persisted, question_text, short,
    AiRequest, Analysis, AnalyzeJob, MaterializeJob, Service, SliceCell, Step, AI_SERVICE, AI_TOPIC, CTL_TOPIC, SERVICE,
};
use ce_grid::sorted_map::SortedMap;
use ce_grid::space::{cell_key, Component, Coords, Ref, Rule, SpaceMachine, Value, RAW, REPRESENTATION};

fn coords(pairs: &[(&str, &str)]) -> Coords {
    let mut c: Coords = SortedMap::new();
    for (d, k) in pairs {
        c.insert(d.to_string(), k.to_string());
    }
    c
}

fn text(t: &str) -> Value {
    Value::Text { text: t.to_string() }
}

fn json(t: &str) -> Json {
    Json::read(t.as_bytes()).unwrap()
}

fn svc() -> Service {
    Service::new("owner-node".into(), SpaceMachine::default())
}

/// What stands around a service: converters, the analysis service and the disk.
struct Surroundings {
    convert: fn(&WorkItem) -> Option<Value>,
    ask: fn(&AiRequest) -> Result<Json, String>,
    saved: Result<(), String>,
    saves: usize,
    questions: Vec<AiRequest>,
}

fn quiet() -> Surroundings {
    Surroundings {
        convert: |_| None,
        ask: |_| Err("nobody answered".to_string()),
        saved: Ok(()),
        saves: 0,
        questions: Vec::new(),
    }
}

fn drive(s: &mut Service, around: &mut Surroundings, from: &str, req: Request) -> Response {
    let mut step = s.handle(from, Ok(req));
    loop {
        step = match step {
            Step::Reply { response } => return response,
            Step::Save { response } => {
                around.saves += 1;
                return persisted(response, around.saved.clone());
            }
            Step::Convert { job } => {
                let value = (around.convert)(&job.items[job.next]);
                s.converted(job, value)
            }
            Step::SaveConverted { job, accepted } => {
                around.saves += 1;
                job.conversion_saved(accepted, around.saved.is_ok())
            }
            Step::Ask { job, request } => {
                let reply = (around.ask)(&request);
                around.questions.push(request);
                s.answered(job, reply)
            }
            Step::SaveVerdict { job, accepted } => {
                around.saves += 1;
                job.verdict_saved(accepted, around.saved.is_ok())
            }
        };
    }
}

fn req(s: &mut Service, from: &str, r: Request) -> Response {
    drive(s, &mut quiet(), from, r)
}

fn error_of(r: Response) -> String {
    match r {
        Response::Error { error } => error,
        other => panic!("unexpected {other:?}"),
    }
}

fn create(space: &str) -> Request {
    Request::CreateSpace { space: space.into() }
}

fn set(at: &[(&str, &str)], value: Value) -> Request {
    Request::SetCell { space: "s".into(), coords: coords(at), value }
}

fn analyze(op: &str, params: Option<&str>) -> Request {
    Request::Analyze {
        space: "s".into(),
        op: op.into(),
        fixed: Coords::new(),
        params: params.map(|p| Params::read_at(p.as_bytes(), "").unwrap()),
    }
}

fn materialize() -> Request {
    Request::Materialize { space: "s".into(), rule: None }
}

#[test]
fn remote_writes_are_refused_reads_are_open() {
    let mut s = svc();
    let r = req(&mut s, "owner-node", create("s"));
    assert!(matches!(r, Response::Done));

    let r = req(&mut s, "stranger", create("x"));
    match r {
        Response::Error { error } => assert!(error.contains("write refused")),
        other => panic!("expected refusal, got {other:?}"),
    }
    // Reads from strangers work.
    let r = req(&mut s, "stranger", Request::Spaces);
    match r {
        Response::Spaces { spaces } => assert_eq!(spaces, vec!["s".to_string()]),
        other => panic!("unexpected {other:?}"),
    }
}

#[test]
fn analyze_on_empty_slice_is_a_named_error() {
    let mut s = svc();
    req(&mut s, "owner-node", create("s"));
    let r = req(&mut s, "owner-node", analyze("summarize", None));
    match r {
        Response::Error { error } => assert!(error.contains("nothing to analyze")),
        other => panic!("unexpected {other:?}"),
    }
}

#[test]
fn materialize_gated_to_owner() {
    let mut s = svc();
    req(&mut s, "owner-node", create("s"));
    let r = req(&mut s, "stranger", materialize());
    match r {
        Response::Error { error } => assert!(error.contains("write refused")),
        other => panic!("unexpected {other:?}"),
    }
    // Owner with no rules: nothing to do, no failure.
    let r = req(&mut s, "owner-node", materialize());
    match r {
        Response::Materialized { written, skipped, failed } => {
            assert_eq!((written, skipped, failed), (0, 0, 0));
        }
        other => panic!("unexpected {other:?}"),
    }
}

#[test]
fn bad_json_is_a_named_error() {
    let mut s = svc();
    let e = serde_json::from_slice::<serde_json::Value>(b"not json").unwrap_err().to_string();
    let step = s.handle("owner-node", Err(e.clone()));
    match step {
        Step::Reply { response } => assert_eq!(error_of(response), format!("bad request: {e}")),
        other => panic!("unexpected {other:?}"),
    }
}

#[test]
fn the_names_on_the_mesh() {
    assert_eq!(SERVICE, "ce.grid");
    assert_eq!(CTL_TOPIC, "grid/ctl");
    assert_eq!(AI_SERVICE, "grid.ai");
    assert_eq!(AI_TOPIC, "grid.ai/ctl");
}

#[test]
fn everything_but_a_plain_read_mutates() {
    let at = Coords::new();
    for r in [
        Request::Spaces,
        Request::Describe { space: "s".into() },
        Request::Get { space: "s".into(), coords: at.clone() },
        Request::Slice { space: "s".into(), fixed: at.clone() },
        Request::Rules { space: "s".into() },
    ] {
        assert!(!mutates(&r));
    }
    for r in [
        create("s"),
        set(&[("k", "v")], text("x")),
        Request::ClearCell { space: "s".into(), coords: at.clone() },
        materialize(),
        analyze("check", None),
    ] {
        assert!(mutates(&r));
    }
}

#[test]
fn a_refusal_says_who_may_write() {
    let mut s = Service::new("0123456789abcdef".into(), SpaceMachine::default());
    let before = s.machine.clone();
    assert_eq!(
        error_of(req(&mut s, "fedcba9876543210", create("x"))),
        "write refused: v1 accepts writes only from the owning node (caller fedcba98, owner \
         01234567). Fix: run the ce-grid CLI on the owning node; cap-gated remote writes \
         (grid:write) are the documented next step."
    );
    assert_eq!(s.machine, before);
    assert_eq!(short("abc"), "abc");
    assert_eq!(short("abcdefgh"), "abcdefgh");
    assert_eq!(short("abcdefghi"), "abcdefgh");
    assert_eq!(short(""), "");
    assert_eq!(short("ééééé"), "éééé");
}

#[test]
fn mutations_are_saved_before_they_are_acknowledged() {
    let mut s = svc();
    let mut around = quiet();
    drive(&mut s, &mut around, "owner-node", create("s"));
    assert_eq!(around.saves, 1);
    drive(&mut s, &mut around, "owner-node", Request::Spaces);
    drive(&mut s, &mut around, "owner-node", create(""));
    assert_eq!(around.saves, 1);
    around.saved = Err("disk full".to_string());
    let r = drive(&mut s, &mut around, "owner-node", set(&[("k", "v")], text("x")));
    assert_eq!(error_of(r), "persist failed: disk full");
    assert_eq!(around.saves, 2);
}

#[test]
fn a_service_goes_on_with_the_spaces_it_is_given() {
    let mut s = svc();
    req(&mut s, "owner-node", create("s"));
    req(&mut s, "owner-node", set(&[("k", "x"), (REPRESENTATION, RAW)], text("v")));
    let mut s = Service::new("owner-node".into(), s.machine);
    match req(&mut s, "anyone", Request::Slice { space: "s".into(), fixed: Coords::new() }) {
        Response::Cells { cells } => assert_eq!(cells.len(), 1),
        other => panic!("unexpected {other:?}"),
    }
}

fn space_with_documents() -> Service {
    let mut s = svc();
    req(&mut s, "owner-node", create("s"));
    for (doc, t) in [("d1", "one"), ("d2", "two"), ("d3", "three")] {
        req(&mut s, "owner-node", set(&[("document", doc), (REPRESENTATION, RAW)], text(t)));
    }
    req(&mut s, "owner-node", Request::DefineRule {
        space: "s".into(),
        rule: Rule {
            id: "to-text".into(),
            source: Coords::new(),
            converter: "grid.convert.text".into(),
            target_representation: "text".into(),
            params: None,
        },
    });
    s
}

#[test]
fn materialization_counts_every_item_once() {
    let mut s = space_with_documents();
    let mut around = quiet();
    around.convert = |item| match &item.value {
        Value::Text { text } if text == "two" => None,
        Value::Text { text } => Some(Value::Text { text: text.to_uppercase() }),
        _ => None,
    };
    match drive(&mut s, &mut around, "owner-node", materialize()) {
        Response::Materialized { written, skipped, failed } => {
            assert_eq!((written, skipped, failed), (2, 0, 1));
        }
        other => panic!("unexpected {other:?}"),
    }
    assert_eq!(around.saves, 2);
    let at = coords(&[("document", "d3"), (REPRESENTATION, "text")]);
    assert_eq!(s.machine.get("s", &at).unwrap().value, Some(text("THREE")));
    let derivation = s.machine.spaces.get("s").unwrap().derived.get(&cell_key(&at)).unwrap();
    assert_eq!(derivation.rule_id, "to-text");
    assert_eq!(derivation.input_key, input_key(&text("three"), "grid.convert.text", &None));
    // The second time only what failed is due.
    around.convert = |_| Some(Value::Bool { bool: true });
    match drive(&mut s, &mut around, "owner-node", materialize()) {
        Response::Materialized { written, skipped, failed } => {
            assert_eq!((written, skipped, failed), (1, 2, 0));
        }
        other => panic!("unexpected {other:?}"),
    }
    match drive(&mut s, &mut around, "owner-node", materialize()) {
        Response::Materialized { written, skipped, failed } => {
            assert_eq!((written, skipped, failed), (0, 3, 0));
        }
        other => panic!("unexpected {other:?}"),
    }
}

#[test]
fn a_conversion_that_was_not_saved_failed() {
    let mut s = space_with_documents();
    let mut around = quiet();
    around.convert = |_| Some(Value::Bool { bool: true });
    around.saved = Err("disk full".to_string());
    match drive(&mut s, &mut around, "owner-node", materialize()) {
        Response::Materialized { written, skipped, failed } => {
            assert_eq!((written, skipped, failed), (0, 0, 3));
        }
        other => panic!("unexpected {other:?}"),
    }
    let missing = Request::Materialize { space: "nope".into(), rule: None };
    assert_eq!(error_of(req(&mut s, "owner-node", missing)), "no such space: nope");
    let other = Request::Materialize { space: "s".into(), rule: Some("other".into()) };
    match req(&mut s, "owner-node", other) {
        Response::Materialized { written, skipped, failed } => {
            assert_eq!((written, skipped, failed), (0, 0, 0));
        }
        other => panic!("unexpected {other:?}"),
    }
}

#[test]
fn a_derived_write_to_a_missing_space_is_not_taken() {
    let mut s = space_with_documents();
    let (items, _) = ce_grid::materialize::plan(&s.machine, "s", None);
    assert!(s.write_derived("s", &items[0], text("t")));
    assert!(!s.write_derived("nope", &items[0], text("t")));
    let job = MaterializeJob {
        space: "nope".into(),
        items,
        next: 0,
        written: 0,
        skipped: 0,
        failed: 0,
    };
    let before = s.machine.clone();
    match s.converted(job, Some(text("t"))) {
        Step::SaveConverted { job, accepted } => {
            assert!(!accepted);
            match job.conversion_saved(accepted, true) {
                Step::Convert { job } => {
                    assert_eq!((job.next, job.written, job.failed), (1, 0, 1))
                }
                other => panic!("unexpected {other:?}"),
            }
        }
        other => panic!("unexpected {other:?}"),
    }
    assert_eq!(s.machine, before);
}

fn space_with_texts(docs: &[&str]) -> Service {
    let mut s = svc();
    req(&mut s, "owner-node", create("s"));
    for doc in docs {
        req(
            &mut s,
            "owner-node",
            set(&[("document", doc), (REPRESENTATION, "text")], text(&format!("text of {doc}"))),
        );
    }
    s
}

#[test]
fn verdicts_become_label_cells() {
    let mut s = space_with_texts(&["d1", "d2", "d3"]);
    let mut around = quiet();
    around.ask = |q| match q {
        AiRequest::Check { value: Value::Text { text }, policy } => {
            assert_eq!(policy, "keep nothing");
            if text.ends_with("d1") {
                Ok(json(r#"{"label":"pass","score":0.5}"#))
            } else if text.ends_with("d2") {
                Ok(json(r#"{"label":7}"#))
            } else {
                Err("nobody \"answered\"".to_string())
            }
        }
        other => panic!("unexpected {other:?}"),
    };
    let params = r#"{"policy": "keep nothing"}"#;
    let r = drive(&mut s, &mut around, "owner-node", analyze("check", Some(params)));
    match r {
        Response::Analysis { result } => assert_eq!(
            result.text,
            r#"{"op":"check","results":[{"coords":{"document":"d1","representation":"text"},"result":{"label":"pass","score":0.5}},{"coords":{"document":"d2","representation":"text"},"result":{"label":7}},{"coords":{"document":"d3","representation":"text"},"error":"nobody \"answered\""}],"written":1}"#
        ),
        other => panic!("unexpected {other:?}"),
    }
    assert_eq!(around.saves, 1);
    assert_eq!(around.questions.len(), 3);
    let labels = s.machine.slice("s", &coords(&[(REPRESENTATION, "label")]));
    assert_eq!(labels.len(), 1);
    assert_eq!(labels[0].value, Some(text("pass")));
    assert_eq!(labels[0].coords, coords(&[("document", "d1"), (REPRESENTATION, "label")]));
    let derivation =
        s.machine.spaces.get("s").unwrap().derived.get(&cell_key(&labels[0].coords)).unwrap();
    assert_eq!(derivation.rule_id, "analyze:check");
    assert_eq!(derivation.converter, "grid.ai");
    assert_eq!(
        derivation.input_key,
        input_key(&text("text of d1"), "grid.ai", &Some(json(params)))
    );
    // The cell that the verdict is about still stands.
    let at = coords(&[("document", "d1"), (REPRESENTATION, "text")]);
    assert_eq!(s.machine.get("s", &at).unwrap().value, Some(text("text of d1")));
}

#[test]
fn a_verdict_that_was_not_saved_is_not_counted() {
    let mut s = space_with_texts(&["d1"]);
    let mut around = quiet();
    around.saved = Err("disk full".to_string());
    around.ask = |q| match q {
        AiRequest::Classify { labels, .. } => {
            assert_eq!(labels.text, r#"["a","b"]"#);
            Ok(json(r#"{"label":"a"}"#))
        }
        other => panic!("unexpected {other:?}"),
    };
    let params = r#"{"labels": ["a", "b"]}"#;
    match drive(&mut s, &mut around, "owner-node", analyze("classify", Some(params))) {
        Response::Analysis { result } => assert_eq!(
            result.text,
            r#"{"op":"classify","results":[{"coords":{"document":"d1","representation":"text"},"result":{"label":"a"}}],"written":0}"#
        ),
        other => panic!("unexpected {other:?}"),
    }
}

#[test]
fn compare_asks_about_two_cells() {
    let mut s = space_with_texts(&["d1", "d2"]);
    let mut around = quiet();
    around.ask = |q| match q {
        AiRequest::Compare { a, b, criteria } => {
            assert_eq!(a, &text("text of d1"));
            assert_eq!(b, &text("text of d2"));
            assert!(criteria == "tone" || criteria.is_empty());
            Ok(json(r#"{"same":true}"#))
        }
        other => panic!("unexpected {other:?}"),
    };
    for params in [Some(r#"{"criteria":"tone"}"#), None, Some(r#"{"criteria":3}"#), Some("[]")] {
        match drive(&mut s, &mut around, "owner-node", analyze("compare", params)) {
            Response::Analysis { result } => {
                assert_eq!(result.text, r#"{"op":"compare","result":{"same":true}}"#)
            }
            other => panic!("unexpected {other:?}"),
        }
    }
    around.ask = |_| Err("nobody answered".to_string());
    let r = drive(&mut s, &mut around, "owner-node", analyze("compare", None));
    assert_eq!(error_of(r), "nobody answered");
    assert_eq!(around.saves, 0);
    let mut s = space_with_texts(&["d1", "d2", "d3"]);
    assert_eq!(
        error_of(req(&mut s, "owner-node", analyze("compare", None))),
        "compare needs exactly 2 cells in the slice, found 3"
    );
}

#[test]
fn summarize_shows_all_cells() {
    let mut s = space_with_texts(&["d2", "d1"]);
    let mut around = quiet();
    around.ask = |q| match q {
        AiRequest::Summarize { cells } => {
            assert_eq!(cells.len(), 2);
            assert_eq!(cells[0].coords, coords(&[("document", "d1"), (REPRESENTATION, "text")]));
            assert_eq!(cells[1].value, text("text of d2"));
            Ok(json("\"short\""))
        }
        other => panic!("unexpected {other:?}"),
    };
    match drive(&mut s, &mut around, "owner-node", analyze("summarize", None)) {
        Response::Analysis { result } => {
            assert_eq!(result.text, r#"{"op":"summarize","result":"short"}"#)
        }
        other => panic!("unexpected {other:?}"),
    }
}

#[test]
fn analysis_complaints_are_named() {
    let mut s = space_with_texts(&["d1"]);
    let mut complaint = |r: Request| error_of(req(&mut s, "owner-node", r));
    assert_eq!(
        complaint(analyze("check", None)),
        "check needs params.policy (the policy text)"
    );
    assert_eq!(
        complaint(analyze("check", Some(r#"{"policy":["x"]}"#))),
        "check needs params.policy (the policy text)"
    );
    assert_eq!(
        complaint(analyze("classify", Some(r#"{"labels":"a"}"#))),
        "classify needs params.labels (an array)"
    );
    assert_eq!(
        complaint(analyze("paint", None)),
        "unknown analysis op 'paint' (compare|classify|summarize|check)"
    );
    let other_plane = Request::Analyze {
        space: "s".into(),
        op: "check".into(),
        fixed: coords(&[(REPRESENTATION, "raw"), ("document", "d\"1")]),
        params: None,
    };
    assert_eq!(
        complaint(other_plane),
        "nothing to analyze: slice {\"document\": \"d\\\"1\", \"representation\": \"raw\"} of 's' \
         is empty (materialize first?)"
    );
    let missing = Request::Analyze {
        space: "nope".into(),
        op: "check".into(),
        fixed: Coords::new(),
        params: None,
    };
    assert_eq!(complaint(missing), "no such space: nope");
}

#[test]
fn an_analysis_begins_with_what_its_parameters_hold() {
    let cells = || {
        vec![SliceCell { coords: coords(&[("document", "d1")]), value: text("t") }]
    };
    let policy = Some("p".to_string());
    match begin_analysis("s", "check", cells(), json("{}"), None, policy, None) {
        Step::Ask { job, request: AiRequest::Check { value, policy } } => {
            assert_eq!(value, text("t"));
            assert_eq!(policy, "p");
            assert!(matches!(job.kind, Analysis::Check { .. }));
            assert_eq!((job.next, job.written, job.results.len()), (0, 0, 0));
        }
        other => panic!("unexpected {other:?}"),
    }
    match begin_analysis("s", "check", Vec::new(), json("{}"), None, Some("p".into()), None) {
        Step::Reply { response: Response::Analysis { result } } => {
            assert_eq!(result.text, r#"{"op":"check","results":[],"written":0}"#)
        }
        other => panic!("unexpected {other:?}"),
    }
    let mut s = space_with_texts(&[]);
    let job = AnalyzeJob {
        space: "s".into(),
        kind: Analysis::Classify { labels: json("[]") },
        params: json("{}"),
        cells: cells(),
        next: 0,
        results: Vec::new(),
        written: 0,
    };
    match s.take_answer(job, Ok(json("1")), Some("chosen".to_string())) {
        Step::SaveVerdict { job, accepted } => {
            assert!(accepted);
            assert_eq!(job.next, 1);
            assert_eq!(job.results, vec![r#"{"coords":{"document":"d1"},"result":1}"#]);
        }
        other => panic!("unexpected {other:?}"),
    }
    let at = coords(&[("document", "d1"), (REPRESENTATION, "label")]);
    assert_eq!(s.machine.get("s", &at).unwrap().value, Some(text("chosen")));
}

#[test]
fn questions_are_spelled_as_on_the_wire() {
    let cell = |doc: &str| SliceCell { coords: coords(&[("document", doc)]), value: text(doc) };
    assert_eq!(
        question_text(&AiRequest::Compare {
            a: text("x"),
            b: Value::Bool { bool: true },
            criteria: "to\"ne".into(),
        }),
        r#"{"a":{"kind":"text","text":"x"},"b":{"bool":true,"kind":"bool"},"criteria":"to\"ne","op":"compare"}"#
    );
    assert_eq!(
        question_text(&AiRequest::Summarize { cells: vec![cell("d1"), cell("d2")] }),
        r#"{"cells":[{"coords":{"document":"d1"},"value":{"kind":"text","text":"d1"}},{"coords":{"document":"d2"},"value":{"kind":"text","text":"d2"}}],"op":"summarize"}"#
    );
    assert_eq!(
        question_text(&AiRequest::Summarize { cells: Vec::new() }),
        r#"{"cells":[],"op":"summarize"}"#
    );
    assert_eq!(
        question_text(&AiRequest::Check { value: text("x"), policy: "p".into() }),
        r#"{"op":"check","policy":"p","value":{"kind":"text","text":"x"}}"#
    );
    assert_eq!(
        question_text(&AiRequest::Classify { value: text("x"), labels: json(r#"["a"]"#) }),
        r#"{"labels":["a"],"op":"classify","value":{"kind":"text","text":"x"}}"#
    );
}

#[test]
fn questions_are_spelled_as_serde_json_writes_objects() {
    let component = Component {
        text: serde_json::to_string(&0.1f32).unwrap(),
        wide: serde_json::to_string(&f64::from(0.1f32)).unwrap(),
    };
    let mut r = Ref::parse("drive:node/a").unwrap();
    r.content_hint = Some("video/mp4".into());
    r.snapshot_cid = Some("ab".into());
    let question = question_text(&AiRequest::Summarize {
        cells: vec![
            SliceCell {
                coords: coords(&[("z", "1"), ("a", "2")]),
                value: Value::Vector { vector: vec![component] },
            },
            SliceCell { coords: coords(&[("z", "2")]), value: Value::Ref { r } },
            SliceCell {
                coords: coords(&[("z", "3")]),
                value: Value::Json { json: json(r#"{"y": 1.5, "b": null}"#) },
            },
        ],
    });
    assert_eq!(
        question,
        [
            r#"{"cells":[{"coords":{"a":"2","z":"1"},"#,
            r#""value":{"kind":"vector","vector":[0.10000000149011612]}},"#,
            r#"{"coords":{"z":"2"},"value":{"kind":"ref","r":{"address":"node/a","#,
            r#""content_hint":"video/mp4","scheme":"drive","snapshot_cid":"ab"}}},"#,
            r#"{"coords":{"z":"3"},"value":{"json":{"b":null,"y":1.5},"kind":"json"}}],"#,
            r#""op":"summarize"}"#,
        ]
        .concat()
    );
    let read: serde_json::Value = serde_json::from_str(&question).unwrap();
    assert_eq!(read.to_string(), question);
}

#[test]
fn numbers_in_answers_and_labels_are_read_once() {
    // Reading this number gives the next float, and reading that one gives the next again.
    let raw = br#"{"result": {"score": 0.09486878679808266}}"#;
    assert_eq!(parse_ai_reply(raw).unwrap().text, r#"{"score":0.09486878679808267}"#);
    assert_eq!(json(r#"{"score":0.09486878679808267}"#).text, r#"{"score":0.09486878679808268}"#);
    let raw = br#"{"params": {"labels": [0.09486878679808266], "n": 0.09486878679808266}}"#;
    let params = Params::read_at(raw, "/params").unwrap();
    assert_eq!(params.labels.as_ref().unwrap().text, "[0.09486878679808267]");
    assert_eq!(
        params.json.text,
        r#"{"labels":[0.09486878679808267],"n":0.09486878679808267}"#
    );
    let mut s = space_with_texts(&["d1"]);
    let req = Request::Analyze {
        space: "s".into(),
        op: "classify".into(),
        fixed: Coords::new(),
        params: Some(params),
    };
    match s.handle("owner-node", Ok(req)) {
        Step::Ask { request: AiRequest::Classify { labels, .. }, .. } => {
            assert_eq!(labels.text, "[0.09486878679808267]")
        }
        other => panic!("unexpected {other:?}"),
    }
    assert!(Params::read_at(b"{}", "/params").is_none());
    assert!(Params::read_at(b"?", "").is_none());
    assert_eq!(Params::read_at(b"[1]", "").unwrap(), Params { json: json("[1]"), labels: None });
}

#[test]
fn ai_replies_are_judged() {
    assert_eq!(parse_ai_reply(b"?").unwrap_err(), "undecodable grid.ai reply");
    assert_eq!(
        parse_ai_reply(br#"{"error":"too long","result":1}"#).unwrap_err(),
        "grid.ai refused: too long"
    );
    assert_eq!(parse_ai_reply(b"{}").unwrap_err(), "grid.ai reply lacks result");
    assert_eq!(parse_ai_reply(br#"{"result": {"a": 1}}"#).unwrap().text, r#"{"a":1}"#);
    assert_eq!(parse_ai_reply(br#"{"error":null,"result":null}"#).unwrap().text, "null");
    assert_eq!(judge_ai_reply(true, None, Some(json("2"))).unwrap(), json("2"));
    assert_eq!(judge_ai_reply(true, None, None).unwrap_err(), "grid.ai reply lacks result");
    assert_eq!(
        judge_ai_reply(true, Some("no".into()), Some(json("2"))).unwrap_err(),
        "grid.ai refused: no"
    );
    assert_eq!(judge_ai_reply(false, None, None).unwrap_err(), "undecodable grid.ai reply");
}
