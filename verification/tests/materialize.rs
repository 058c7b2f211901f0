use ce_grid::encode::{coords_text, payload_text, value_text};
use ce_grid::json::Json;
use ce_grid::materialize::{
    convert_request, converter_topic, hashed_input, input_key, is_recorded, judge_convert_reply,
    parse_convert_reply, plan, WorkItem,
};
use ce_grid::sorted_map::SortedMap;
use ce_grid::space::{
    Component, Coords, Derivation, Op, Ref, Rule, SpaceMachine, Value, RAW, REPRESENTATION,
};

fn coords(pairs: &[(&str, &str)]) -> Coords {
    let mut c: Coords = SortedMap::new();
    for (d, k) in pairs {
        c.insert(d.to_string(), k.to_string());
    }
    c
}

fn json(text: &str) -> Json {
    Json::read(text.as_bytes()).unwrap()
}

fn component(x: f32) -> Component {
    Component {
        text: serde_json::to_string(&x).unwrap(),
        wide: serde_json::to_string(&f64::from(x)).unwrap(),
    }
}

fn machine_with_rule() -> SpaceMachine {
    let mut m = SpaceMachine::default();
    for op in [
        Op::CreateSpace { space: "s".into() },
        Op::SetCell {
            space: "s".into(),
            coords: coords(&[("document", "d1"), (REPRESENTATION, RAW)]),
            value: Value::Text { text: "hello".into() },
        },
        Op::DefineRule {
            space: "s".into(),
            rule: Rule {
                id: "r1".into(),
                source: Coords::new(),
                converter: "space.convert.text".into(),
                target_representation: "text".into(),
                params: None,
            },
        },
    ] {
        let st = m.stamp("n", op);
        m.apply(&st);
    }
    m
}

fn record(m: &mut SpaceMachine, item: &WorkItem, text: &str) {
    let st = m.stamp("n", Op::SetDerived {
        space: "s".into(),
        coords: item.target.clone(),
        value: Value::Text { text: text.into() },
        derivation: Derivation {
            rule_id: item.rule_id.clone(),
            converter: item.converter.clone(),
            input_key: item.input_key.clone(),
        },
    });
    m.apply(&st);
}

#[test]
fn plan_finds_pending_work() {
    let m = machine_with_rule();
    let (items, skipped) = plan(&m, "s", None);
    assert_eq!(items.len(), 1);
    assert_eq!(skipped, 0);
    let item = &items[0];
    assert_eq!(item.target.get(REPRESENTATION).unwrap(), "text");
    assert_eq!(item.target.get("document").unwrap(), "d1");
    assert_eq!(item.converter, "space.convert.text");
}

#[test]
fn plan_skips_up_to_date_targets() {
    let mut m = machine_with_rule();
    let (items, _) = plan(&m, "s", None);
    let item = items[0].clone();
    let st = m.stamp("n", Op::SetDerived {
        space: "s".into(),
        coords: item.target.clone(),
        value: Value::Text { text: "hello".into() },
        derivation: Derivation {
            rule_id: item.rule_id.clone(),
            converter: item.converter.clone(),
            input_key: item.input_key.clone(),
        },
    });
    m.apply(&st);
    let (items, skipped) = plan(&m, "s", None);
    assert!(items.is_empty());
    assert_eq!(skipped, 1);
}

#[test]
fn plan_replans_when_input_changes() {
    let mut m = machine_with_rule();
    let (items, _) = plan(&m, "s", None);
    let item = items[0].clone();
    let st = m.stamp("n", Op::SetDerived {
        space: "s".into(),
        coords: item.target.clone(),
        value: Value::Text { text: "hello".into() },
        derivation: Derivation {
            rule_id: item.rule_id.clone(),
            converter: item.converter.clone(),
            input_key: item.input_key.clone(),
        },
    });
    m.apply(&st);
    // Source changes -> input key changes -> work is pending again.
    let st = m.stamp("n", Op::SetCell {
        space: "s".into(),
        coords: coords(&[("document", "d1"), (REPRESENTATION, RAW)]),
        value: Value::Text { text: "changed".into() },
    });
    m.apply(&st);
    let (items, skipped) = plan(&m, "s", None);
    assert_eq!(items.len(), 1);
    assert_eq!(skipped, 0);
}

#[test]
fn plan_never_uses_derived_cells_as_sources() {
    let mut m = machine_with_rule();
    let st = m.stamp("n", Op::SetCell {
        space: "s".into(),
        coords: coords(&[("document", "d2"), (REPRESENTATION, "text")]),
        value: Value::Text { text: "already text".into() },
    });
    m.apply(&st);
    let (items, _) = plan(&m, "s", None);
    // Only d1's raw cell is a source; the representation=text cell is not.
    assert_eq!(items.len(), 1);
    assert_eq!(items[0].target.get("document").unwrap(), "d1");
}

#[test]
fn rule_filter_limits_planning() {
    let m = machine_with_rule();
    let (items, _) = plan(&m, "s", Some("other-rule"));
    assert!(items.is_empty());
    let (items, _) = plan(&m, "s", Some("r1"));
    assert_eq!(items.len(), 1);
}

#[test]
fn input_key_is_stable_and_sensitive() {
    let v = Value::Text { text: "x".into() };
    let a = input_key(&v, "c", &None);
    let b = input_key(&v, "c", &None);
    assert_eq!(a, b);
    assert_ne!(a, input_key(&Value::Text { text: "y".into() }, "c", &None));
    assert_ne!(a, input_key(&v, "c2", &None));
    assert_ne!(a, input_key(&v, "c", &Some(json("{\"p\": 1}"))));
}

#[test]
fn convert_reply_parsing() {
    let ok = br#"{"ok":true,"result":{"value":{"kind":"text","text":"t"}}}"#;
    assert_eq!(
        parse_convert_reply(ok).unwrap(),
        json(&value_text(&Value::Text { text: "t".into() }))
    );
    let err = br#"{"error":"scheme not supported"}"#;
    assert!(parse_convert_reply(err).unwrap_err().contains("scheme"));
    let bad = br#"{"ok":true,"result":{}}"#;
    assert!(parse_convert_reply(bad).is_err());
}

#[test]
fn every_converter_complaint_is_named() {
    assert_eq!(parse_convert_reply(b"nonsense").unwrap_err(), "undecodable converter reply");
    assert_eq!(
        parse_convert_reply(br#"{"error":"a \"b\"","result":{"value":1}}"#).unwrap_err(),
        "converter refused: a \"b\""
    );
    for raw in [&b"{}"[..], &b"[1]"[..], &br#"{"result":3}"#[..]] {
        assert_eq!(parse_convert_reply(raw).unwrap_err(), "converter reply lacks result.value");
    }
    // An error that is no string is passed over.
    assert_eq!(
        parse_convert_reply(br#"{"error":7,"result":{"value": [1, 2] }}"#).unwrap().text,
        "[1,2]"
    );
    assert_eq!(judge_convert_reply(false, None, None).unwrap_err(), "undecodable converter reply");
    assert_eq!(
        judge_convert_reply(true, Some("no".into()), Some(json("1"))).unwrap_err(),
        "converter refused: no"
    );
    assert_eq!(judge_convert_reply(true, None, Some(json("1"))).unwrap(), json("1"));
}

#[test]
fn the_memoization_key_is_the_digest_of_its_input() {
    let v = Value::Text { text: "x".into() };
    assert_eq!(hashed_input(&v, "c", &None), "{\"kind\":\"text\",\"text\":\"x\"}\u{1f}c\u{1f}");
    assert_eq!(
        input_key(&v, "c", &None),
        "708c3e8bbcc5a06303e1468695ac7aa3d1036e97388fa7c4a9067f41a47e53e1"
    );
    let v = Value::Text { text: "a\"b\\c\n\u{1}é".into() };
    let params = Some(json(" { \"p\" : 1 } "));
    assert_eq!(
        hashed_input(&v, "grid.ai", &params),
        "{\"kind\":\"text\",\"text\":\"a\\\"b\\\\c\\n\\u0001é\"}\u{1f}grid.ai\u{1f}{\"p\":1}"
    );
    assert_eq!(
        input_key(&v, "grid.ai", &params),
        "60f80564a2bae7d0077d7c14cc1952bbfccb1a82ce95e62c1bb5ae16d78946ad"
    );
}

#[test]
fn inputs_are_told_apart_before_they_are_hashed() {
    let texts = [
        hashed_input(&Value::Text { text: "1".into() }, "c", &None),
        hashed_input(&Value::Number { number: "1.0".into() }, "c", &None),
        hashed_input(&Value::Timestamp { ms: 1 }, "c", &None),
        hashed_input(&Value::Bool { bool: true }, "c", &None),
        hashed_input(&Value::Json { json: json("1") }, "c", &None),
        hashed_input(&Value::Vector { vector: vec![component(1.0)] }, "c", &None),
        hashed_input(&Value::Ref { r: Ref::parse("blob:1").unwrap() }, "c", &None),
        hashed_input(&Value::Text { text: "1".into() }, "c\u{1f}", &None),
        hashed_input(&Value::Text { text: "1".into() }, "c", &Some(json("0"))),
        hashed_input(&Value::Text { text: "1".into() }, "", &Some(json("0"))),
    ];
    for (i, a) in texts.iter().enumerate() {
        for b in &texts[i + 1..] {
            assert_ne!(a, b);
        }
    }
}

#[test]
fn values_are_spelled_as_on_the_wire() {
    assert_eq!(
        value_text(&Value::Text { text: "tab\there \u{8}\u{c}\r\u{1f}/".into() }),
        "{\"kind\":\"text\",\"text\":\"tab\\there \\b\\f\\r\\u001f/\"}"
    );
    assert_eq!(
        value_text(&Value::Number { number: "1.5".into() }),
        r#"{"kind":"number","number":1.5}"#
    );
    assert_eq!(value_text(&Value::Bool { bool: true }), r#"{"kind":"bool","bool":true}"#);
    assert_eq!(value_text(&Value::Bool { bool: false }), r#"{"kind":"bool","bool":false}"#);
    assert_eq!(
        value_text(&Value::Timestamp { ms: i64::MIN }),
        r#"{"kind":"timestamp","ms":-9223372036854775808}"#
    );
    assert_eq!(value_text(&Value::Timestamp { ms: 1070 }), r#"{"kind":"timestamp","ms":1070}"#);
    assert_eq!(
        value_text(&Value::Json { json: json(r#"{ "b": [1, null], "a": "x" }"#) }),
        r#"{"kind":"json","json":{"a":"x","b":[1,null]}}"#
    );
    assert_eq!(
        value_text(&Value::Vector { vector: vec![component(0.5), component(-1.0)] }),
        r#"{"kind":"vector","vector":[0.5,-1.0]}"#
    );
    assert_eq!(value_text(&Value::Vector { vector: vec![] }), r#"{"kind":"vector","vector":[]}"#);
    let mut r = Ref::parse("drive:node/a \"b\"").unwrap();
    assert_eq!(
        value_text(&Value::Ref { r: r.clone() }),
        r#"{"kind":"ref","r":{"scheme":"drive","address":"node/a \"b\""}}"#
    );
    r.content_hint = Some("video/mp4".into());
    r.snapshot_cid = Some("ab".into());
    assert_eq!(
        value_text(&Value::Ref { r }),
        r#"{"kind":"ref","r":{"scheme":"drive","address":"node/a \"b\"","content_hint":"video/mp4","snapshot_cid":"ab"}}"#
    );
    assert_eq!(
        coords_text(&coords(&[("policy", "gdpr"), ("document", "d\"1")])),
        r#"{"document":"d\"1","policy":"gdpr"}"#
    );
    assert_eq!(coords_text(&Coords::new()), "{}");
}

#[test]
fn what_is_spelled_is_what_serde_json_writes() {
    let text = value_text(&Value::Text { text: "quote \" slash \\ nul \u{0} del \u{7f} é".into() });
    let parsed: serde_json::Value = serde_json::from_str(&text).unwrap();
    assert_eq!(parsed["kind"], "text");
    assert_eq!(parsed["text"], "quote \" slash \\ nul \u{0} del \u{7f} é");
    assert_eq!(
        text,
        format!(
            "{{\"kind\":\"text\",\"text\":{}}}",
            serde_json::to_string("quote \" slash \\ nul \u{0} del \u{7f} é").unwrap()
        )
    );
}

#[test]
fn json_is_read_and_taken_apart() {
    assert!(Json::read(b"{oops").is_none());
    let j = Json::read(br#" {"b": "x\ny", "a": [1, 2.50], "c": {"d": null}} "#).unwrap();
    assert_eq!(j.text, r#"{"a":[1,2.5],"b":"x\ny","c":{"d":null}}"#);
    assert_eq!(j.member("a").unwrap().text, "[1,2.5]");
    assert!(j.member("a").unwrap().is_array());
    assert!(!j.is_array());
    assert!(j.member("z").is_none());
    assert!(j.member("a").unwrap().member("0").is_none());
    assert_eq!(j.member("b").unwrap().as_text().unwrap(), "x\ny");
    assert!(j.as_text().is_none());
    assert_eq!(j.member("c").unwrap().member("d").unwrap().text, "null");
}

#[test]
fn a_converter_is_asked_with_the_value_as_on_the_wire() {
    let m = machine_with_rule();
    let (mut items, _) = plan(&m, "s", None);
    assert_eq!(
        convert_request(&items[0]),
        r#"{"op":"convert","params":null,"target":"text","value":{"kind":"text","text":"hello"}}"#
    );
    items[0].params = Some(json(r#"{ "n": 1 }"#));
    items[0].target_representation = "a\"b".into();
    let text = convert_request(&items[0]);
    assert_eq!(
        text,
        r#"{"op":"convert","params":{"n":1},"target":"a\"b","value":{"kind":"text","text":"hello"}}"#
    );
    let parsed: serde_json::Value = serde_json::from_str(&text).unwrap();
    assert_eq!(parsed["target"], "a\"b");
}

#[test]
fn payloads_spell_every_object_in_name_order() {
    assert_eq!(payload_text(&Value::Bool { bool: true }), r#"{"bool":true,"kind":"bool"}"#);
    assert_eq!(payload_text(&Value::Bool { bool: false }), r#"{"bool":false,"kind":"bool"}"#);
    assert_eq!(
        payload_text(&Value::Json { json: json("[1]") }),
        r#"{"json":[1],"kind":"json"}"#
    );
    let mut r = Ref::parse("blob:1").unwrap();
    assert_eq!(
        payload_text(&Value::Ref { r: r.clone() }),
        r#"{"kind":"ref","r":{"address":"1","scheme":"blob"}}"#
    );
    r.snapshot_cid = Some("ab".into());
    assert_eq!(
        payload_text(&Value::Ref { r: r.clone() }),
        r#"{"kind":"ref","r":{"address":"1","scheme":"blob","snapshot_cid":"ab"}}"#
    );
    r.content_hint = Some("text".into());
    let values = [
        Value::Text { text: "x".into() },
        Value::Number { number: "1.5".into() },
        Value::Bool { bool: true },
        Value::Timestamp { ms: -7 },
        Value::Json { json: json(r#"{"b":1,"a":[]}"#) },
        Value::Vector { vector: vec![component(0.1), component(-2.0)] },
        Value::Ref { r },
    ];
    for v in &values {
        let read: serde_json::Value = serde_json::from_str(&payload_text(v)).unwrap();
        assert_eq!(read.to_string(), payload_text(v));
        let stored: serde_json::Value = serde_json::from_str(&value_text(v)).unwrap();
        assert_eq!(read["kind"], stored["kind"]);
    }
}

#[test]
fn vectors_are_widened_in_payloads_only() {
    let v = Value::Vector { vector: vec![component(0.1), component(0.5)] };
    assert_eq!(value_text(&v), r#"{"kind":"vector","vector":[0.1,0.5]}"#);
    assert_eq!(payload_text(&v), r#"{"kind":"vector","vector":[0.10000000149011612,0.5]}"#);
    let m = machine_with_rule();
    let (mut items, _) = plan(&m, "s", None);
    items[0].value = v;
    assert_eq!(
        convert_request(&items[0]),
        r#"{"op":"convert","params":null,"target":"text","value":{"kind":"vector","vector":[0.10000000149011612,0.5]}}"#
    );
}

#[test]
fn a_converted_number_is_read_once() {
    // Reading this number gives the next float, and reading that one gives the next again.
    let raw = br#"{"ok":true,"result":{"value":{"kind":"number","number":0.09486878679808266}}}"#;
    assert_eq!(
        parse_convert_reply(raw).unwrap().text,
        r#"{"kind":"number","number":0.09486878679808267}"#
    );
}

#[test]
fn json_is_found_by_its_path() {
    let raw = br#"{"a": {"b": [1, {"c": "x"}]}, "d/e": 2, "": 3}"#;
    let at = |pointer: &str| Json::read_at(raw, pointer).map(|j| j.text);
    assert_eq!(at("/a").unwrap(), r#"{"b":[1,{"c":"x"}]}"#);
    assert_eq!(at("/a/b/1/c").unwrap(), "\"x\"");
    assert_eq!(at("/d~1e").unwrap(), "2");
    assert_eq!(at("/").unwrap(), "3");
    assert_eq!(at("").unwrap(), r#"{"":3,"a":{"b":[1,{"c":"x"}]},"d/e":2}"#);
    assert!(at("/z").is_none());
    assert!(at("a").is_none());
    assert!(Json::read_at(b"{", "").is_none());
}

#[test]
fn a_memoization_key_is_sixty_four_hex_digits() {
    for text in ["", "x", "é", "\u{1f}"] {
        let key = input_key(&Value::Text { text: text.into() }, text, &None);
        assert_eq!(key.len(), 64);
        assert!(key.chars().all(|c| c.is_ascii_digit() || ('a'..='f').contains(&c)));
    }
}

#[test]
fn a_reply_may_hold_any_member_names() {
    let raw = br#"{"ok":true,"result":{"value":1},"$serde_json::private::RawValue":"x"}"#;
    assert_eq!(parse_convert_reply(raw).unwrap().text, "1");
}

#[test]
fn converters_listen_on_their_control_topic() {
    assert_eq!(converter_topic("grid.convert.text"), "grid.convert.text/ctl");
}

#[test]
fn a_plan_for_a_missing_space_is_empty() {
    let (items, skipped) = plan(&machine_with_rule(), "nope", None);
    assert!(items.is_empty());
    assert_eq!(skipped, 0);
}

#[test]
fn a_rule_can_read_another_plane() {
    let mut m = machine_with_rule();
    for op in [
        Op::SetCell {
            space: "s".into(),
            coords: coords(&[("document", "d2"), (REPRESENTATION, "text")]),
            value: Value::Text { text: "plain".into() },
        },
        Op::SetCell {
            space: "s".into(),
            coords: coords(&[("policy", "gdpr")]),
            value: Value::Text { text: "everywhere".into() },
        },
        Op::DefineRule {
            space: "s".into(),
            rule: Rule {
                id: "r2".into(),
                source: coords(&[(REPRESENTATION, "text"), ("document", "d2")]),
                converter: "grid.convert.embed".into(),
                target_representation: "embedding".into(),
                params: Some(json(r#"{"dim":3}"#)),
            },
        },
    ] {
        let st = m.stamp("n", op);
        m.apply(&st);
    }
    let (items, skipped) = plan(&m, "s", None);
    assert_eq!(skipped, 0);
    // r1 reads d1 and the cell that names no plane; r2 reads d2 and that cell too.
    let seen: Vec<(String, String)> = items
        .iter()
        .map(|i| (i.rule_id.clone(), coords_text(&i.target)))
        .collect();
    let pair = |id: &str, at: &str| (id.to_string(), at.to_string());
    assert_eq!(
        seen,
        vec![
            pair("r1", r#"{"document":"d1","representation":"text"}"#),
            pair("r1", r#"{"policy":"gdpr","representation":"text"}"#),
            pair("r2", r#"{"document":"d2","representation":"embedding"}"#),
            pair("r2", r#"{"policy":"gdpr","representation":"embedding"}"#),
        ]
    );
    assert_eq!(items[2].target_representation, "embedding");
    assert_eq!(items[2].params, Some(json(r#"{"dim":3}"#)));
    assert_eq!(
        items[2].input_key,
        input_key(&items[2].value, "grid.convert.embed", &Some(json(r#"{"dim":3}"#)))
    );
    // Due and up to date together are all targets.
    record(&mut m, &items[0], "t");
    let (rest, skipped) = plan(&m, "s", None);
    assert_eq!((rest.len(), skipped), (3, 1));
}

#[test]
fn a_recorded_derivation_leaves_its_source_alone() {
    let mut m = machine_with_rule();
    let raw = coords(&[("document", "d1"), (REPRESENTATION, RAW)]);
    let (items, _) = plan(&m, "s", None);
    record(&mut m, &items[0], "rendered");
    assert_eq!(m.get("s", &raw).unwrap().value, Some(Value::Text { text: "hello".into() }));
    assert_eq!(
        m.get("s", &items[0].target).unwrap().value,
        Some(Value::Text { text: "rendered".into() })
    );
    let derived = &m.spaces.get("s").unwrap().derived;
    let at = "document=d1\u{1f}representation=text";
    assert!(is_recorded(derived, at, &items[0].input_key));
    assert!(!is_recorded(derived, at, "other"));
    assert!(!is_recorded(derived, "elsewhere", &items[0].input_key));
    // A write elsewhere does not make it due again.
    let st = m.stamp("n", Op::SetCell {
        space: "s".into(),
        coords: coords(&[("document", "d9"), (REPRESENTATION, "note")]),
        value: Value::Bool { bool: true },
    });
    m.apply(&st);
    let (items, skipped) = plan(&m, "s", None);
    assert!(items.is_empty());
    assert_eq!(skipped, 1);
}
