use ce_grid::json::Json;
use ce_grid::proto::{default_kind, handle, Handled, Params, Request, Response};
use ce_grid::sorted_map::SortedMap;
use ce_grid::space::{
    Component, Coords, Derivation, Rule, SpaceMachine, Stamped, Value, RAW, REPRESENTATION,
};

fn coords(pairs: &[(&str, &str)]) -> Coords {
    let mut c: Coords = SortedMap::new();
    for (d, k) in pairs {
        c.insert(d.to_string(), k.to_string());
    }
    c
}

fn error_of(h: Handled) -> String {
    assert!(h.op.is_none());
    match h.response {
        Response::Error { error } => error,
        other => panic!("unexpected: {other:?}"),
    }
}

fn rule(id: &str) -> Rule {
    Rule {
        id: id.into(),
        source: Coords::new(),
        converter: "grid.convert.text".into(),
        target_representation: "text".into(),
        params: None,
    }
}

fn component(x: f32) -> Component {
    Component {
        text: serde_json::to_string(&x).unwrap(),
        wide: serde_json::to_string(&f64::from(x)).unwrap(),
    }
}

fn derivation() -> Derivation {
    Derivation { rule_id: "r".into(), converter: "c".into(), input_key: "k".into() }
}

#[test]
fn full_request_flow() {
    let mut m = SpaceMachine::default();
    let h = handle(&mut m, "n1", Request::CreateSpace { space: "audit".into() });
    assert!(matches!(h.response, Response::Done));
    assert!(h.op.is_some());

    handle(&mut m, "n1", Request::AddDimension {
        space: "audit".into(),
        name: "document".into(),
        kind: "string".into(),
    });
    handle(&mut m, "n1", Request::SetCell {
        space: "audit".into(),
        coords: coords(&[("document", "d1"), (REPRESENTATION, "raw")]),
        value: Value::Text { text: "hello".into() },
    });

    let h = handle(&mut m, "n1", Request::Slice {
        space: "audit".into(),
        fixed: coords(&[(REPRESENTATION, "raw")]),
    });
    match h.response {
        Response::Cells { cells } => assert_eq!(cells.len(), 1),
        other => panic!("unexpected: {other:?}"),
    }

    let h = handle(&mut m, "n1", Request::Describe { space: "audit".into() });
    match h.response {
        Response::Space { info } => {
            assert_eq!(info.cells, 1);
            assert!(info.dimensions.iter().any(|d| d.name == "document"));
        }
        other => panic!("unexpected: {other:?}"),
    }
}

#[test]
fn mutations_on_missing_space_error_without_op() {
    let mut m = SpaceMachine::default();
    let h = handle(&mut m, "n1", Request::SetCell {
        space: "nope".into(),
        coords: coords(&[("k", "x")]),
        value: Value::Bool { bool: true },
    });
    assert!(matches!(h.response, Response::Error { .. }));
    assert!(h.op.is_none());
}

#[test]
fn empty_coords_rejected() {
    let mut m = SpaceMachine::default();
    handle(&mut m, "n1", Request::CreateSpace { space: "s".into() });
    let h = handle(&mut m, "n1", Request::SetCell {
        space: "s".into(),
        coords: Coords::new(),
        value: Value::Bool { bool: true },
    });
    assert!(matches!(h.response, Response::Error { .. }));
}

#[test]
fn every_complaint_is_named() {
    let mut m = SpaceMachine::default();
    handle(&mut m, "n1", Request::CreateSpace { space: "s".into() });
    let before = m.clone();
    let value = || Value::Bool { bool: true };
    let at = coords(&[("k", "x")]);
    let missing = "no such space: nope";
    for req in [
        Request::Describe { space: "nope".into() },
        Request::Slice { space: "nope".into(), fixed: Coords::new() },
        Request::Rules { space: "nope".into() },
        Request::AddDimension { space: "nope".into(), name: "d".into(), kind: default_kind() },
        Request::SetCell { space: "nope".into(), coords: Coords::new(), value: value() },
        Request::ClearCell { space: "nope".into(), coords: at.clone() },
        Request::DefineRule { space: "nope".into(), rule: rule("") },
        Request::SetDerived {
            space: "nope".into(),
            coords: Coords::new(),
            value: value(),
            derivation: derivation(),
        },
    ] {
        assert_eq!(error_of(handle(&mut m, "n1", req)), missing);
    }
    assert_eq!(
        error_of(handle(&mut m, "n1", Request::CreateSpace { space: "".into() })),
        "space name must not be empty"
    );
    for space in ["s", "nope"] {
        let req = Request::AddCoordinate {
            space: space.into(),
            dimension: "d".into(),
            key: "x".into(),
        };
        assert_eq!(
            error_of(handle(&mut m, "n1", req)),
            format!("no such dimension: {space}/d")
        );
    }
    assert_eq!(
        error_of(handle(&mut m, "n1", Request::SetCell {
            space: "s".into(),
            coords: Coords::new(),
            value: value(),
        })),
        "coords must fix at least one dimension"
    );
    assert_eq!(
        error_of(handle(&mut m, "n1", Request::SetDerived {
            space: "s".into(),
            coords: Coords::new(),
            value: value(),
            derivation: derivation(),
        })),
        "coords must fix at least one dimension"
    );
    assert_eq!(
        error_of(handle(&mut m, "n1", Request::DefineRule { space: "s".into(), rule: rule("") })),
        "rule id must not be empty"
    );
    let daemon = "materialize/analyze need the mesh and are handled by the daemon";
    assert_eq!(
        error_of(handle(&mut m, "n1", Request::Materialize { space: "s".into(), rule: None })),
        daemon
    );
    assert_eq!(
        error_of(handle(&mut m, "n1", Request::Analyze {
            space: "s".into(),
            op: "check".into(),
            fixed: Coords::new(),
            params: Params::read_at(b"{}", ""),
        })),
        daemon
    );
    // None of them left a trace.
    assert_eq!(m, before);
}

#[test]
fn an_error_reply_carries_its_message() {
    match Response::error("why".to_string()) {
        Response::Error { error } => assert_eq!(error, "why"),
        other => panic!("unexpected: {other:?}"),
    }
}

#[test]
fn reads_leave_no_trace() {
    let mut m = SpaceMachine::default();
    handle(&mut m, "n1", Request::CreateSpace { space: "b".into() });
    handle(&mut m, "n1", Request::CreateSpace { space: "a".into() });
    handle(&mut m, "n1", Request::SetCell {
        space: "a".into(),
        coords: coords(&[("policy", "gdpr")]),
        value: Value::Timestamp { ms: -5 },
    });
    handle(&mut m, "n1", Request::DefineRule { space: "a".into(), rule: rule("r1") });
    let before = m.clone();

    let h = handle(&mut m, "anyone", Request::Spaces);
    assert!(h.op.is_none());
    match h.response {
        Response::Spaces { spaces } => assert_eq!(spaces, vec!["a".to_string(), "b".to_string()]),
        other => panic!("unexpected: {other:?}"),
    }
    let at = coords(&[("policy", "gdpr"), ("document", "d1")]);
    match handle(&mut m, "anyone", Request::Get { space: "a".into(), coords: at }).response {
        Response::Cell { cell, key } => {
            let cell = cell.unwrap();
            assert_eq!(cell.value, Some(Value::Timestamp { ms: -5 }));
            assert_eq!(cell.lamport, 3);
            assert_eq!(cell.writer, "n1");
            assert_eq!(key, Some("policy=gdpr".to_string()));
        }
        other => panic!("unexpected: {other:?}"),
    }
    match handle(&mut m, "anyone", Request::Get { space: "zz".into(), coords: Coords::new() }).response
    {
        Response::Cell { cell, key } => {
            assert!(cell.is_none());
            assert!(key.is_none());
        }
        other => panic!("unexpected: {other:?}"),
    }
    match handle(&mut m, "anyone", Request::Rules { space: "a".into() }).response {
        Response::Rules { rules } => assert_eq!(rules, vec![rule("r1")]),
        other => panic!("unexpected: {other:?}"),
    }
    assert_eq!(m, before);
}

#[test]
fn a_description_counts_live_cells_only() {
    let mut m = SpaceMachine::default();
    handle(&mut m, "n1", Request::CreateSpace { space: "s".into() });
    for k in ["x", "y", "z"] {
        handle(&mut m, "n1", Request::SetCell {
            space: "s".into(),
            coords: coords(&[("k", k)]),
            value: Value::Number { number: "1.5".into() },
        });
    }
    handle(&mut m, "n1", Request::ClearCell { space: "s".into(), coords: coords(&[("k", "y")]) });
    match handle(&mut m, "n1", Request::Describe { space: "s".into() }).response {
        Response::Space { info } => {
            assert_eq!(info.name, "s");
            assert_eq!(info.cells, 2);
            let names: Vec<&str> = info.dimensions.iter().map(|d| d.name.as_str()).collect();
            assert_eq!(names, vec!["k", REPRESENTATION]);
            assert_eq!(info.dimensions[0].kind, "string");
            assert_eq!(info.dimensions[0].coords, vec!["x", "y", "z"]);
            assert_eq!(info.dimensions[1].coords, vec![RAW]);
            assert!(info.rules.is_empty());
        }
        other => panic!("unexpected: {other:?}"),
    }
}

#[test]
fn the_log_replays_to_the_same_machine() {
    let mut m = SpaceMachine::default();
    let reqs = vec![
        Request::CreateSpace { space: "s".into() },
        Request::AddDimension { space: "s".into(), name: "time".into(), kind: "time".into() },
        Request::AddCoordinate { space: "s".into(), dimension: "time".into(), key: "t0".into() },
        Request::Spaces,
        Request::SetCell {
            space: "s".into(),
            coords: coords(&[("time", "t1")]),
            value: Value::Ref {
                r: ce_grid::space::Ref::parse("blob:ab").unwrap(),
            },
        },
        Request::SetCell { space: "nope".into(), coords: Coords::new(), value: Value::Bool { bool: false } },
        Request::ClearCell { space: "s".into(), coords: coords(&[("time", "t1")]) },
        Request::DefineRule { space: "s".into(), rule: rule("r") },
        Request::SetDerived {
            space: "s".into(),
            coords: coords(&[("time", "t2")]),
            value: Value::Vector { vector: vec![component(0.5), component(1.0)] },
            derivation: derivation(),
        },
    ];
    let mut log: Vec<Stamped> = Vec::new();
    for req in reqs {
        let h = handle(&mut m, "n1", req);
        assert_eq!(h.op.is_some(), matches!(h.response, Response::Done));
        if let Some(op) = h.op {
            log.push(op);
        }
    }
    assert_eq!(log.len(), 7);
    for (i, op) in log.iter().enumerate() {
        assert_eq!(op.lamport, i as u64 + 1);
        assert_eq!(op.writer, "n1");
    }
    let mut replica = SpaceMachine::default();
    for op in &log {
        replica.apply(op);
    }
    assert_eq!(replica, m);
}

#[test]
fn a_write_is_read_back_at_its_point() {
    let mut m = SpaceMachine::default();
    handle(&mut m, "n1", Request::CreateSpace { space: "s".into() });
    let at = coords(&[("document", "d1"), (REPRESENTATION, RAW)]);
    for text in ["one", "two"] {
        handle(&mut m, "n1", Request::SetCell {
            space: "s".into(),
            coords: at.clone(),
            value: Value::Text { text: text.into() },
        });
        match handle(&mut m, "n2", Request::Get { space: "s".into(), coords: at.clone() }).response {
            Response::Cell { cell: Some(cell), .. } => {
                assert_eq!(cell.value, Some(Value::Text { text: text.into() }));
                assert_eq!(cell.coords, at);
            }
            other => panic!("unexpected: {other:?}"),
        }
    }
    handle(&mut m, "n1", Request::ClearCell { space: "s".into(), coords: at.clone() });
    match handle(&mut m, "n2", Request::Slice { space: "s".into(), fixed: Coords::new() }).response {
        Response::Cells { cells } => assert!(cells.is_empty()),
        other => panic!("unexpected: {other:?}"),
    }
}

#[test]
fn writing_a_cell_registers_its_address() {
    let mut m = SpaceMachine::default();
    let mut send = |req: Request| {
        assert!(matches!(handle(&mut m, "n1", req).response, Response::Done));
        let s = m.spaces.get("s").unwrap();
        let shown = |d: &str| s.dimensions.get(d).map(|x| (x.kind.clone(), x.coords.join(",")));
        (shown("time"), shown("place"), shown("unit"))
    };
    let of = |kind: &str, keys: &str| Some((kind.to_string(), keys.to_string()));
    send(Request::CreateSpace { space: "s".into() });
    send(Request::AddDimension { space: "s".into(), name: "time".into(), kind: "date".into() });
    let set = |at: &[(&str, &str)]| Request::SetCell {
        space: "s".into(),
        coords: coords(at),
        value: Value::Bool { bool: true },
    };
    assert_eq!(
        send(set(&[("time", "t2"), ("place", "x")])),
        (of("date", "t2"), of("string", "x"), None)
    );
    assert_eq!(
        send(set(&[("time", "t1"), ("place", "x")])),
        (of("date", "t2,t1"), of("string", "x"), None)
    );
    assert_eq!(
        send(Request::ClearCell { space: "s".into(), coords: coords(&[("place", "a")]) }),
        (of("date", "t2,t1"), of("string", "x,a"), None)
    );
    assert_eq!(
        send(Request::SetDerived {
            space: "s".into(),
            coords: coords(&[("unit", "m"), ("time", "t2")]),
            value: Value::Bool { bool: true },
            derivation: derivation(),
        }),
        (of("date", "t2,t1"), of("string", "x,a"), of("string", "m"))
    );
}
