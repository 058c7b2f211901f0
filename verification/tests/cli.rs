use ce_grid::cli::{
    parse_args, parse_command, parse_coords, parse_integer, parse_value, request_from, value_from,
    Flags, USAGE,
};
use ce_grid::json::Json;
use ce_grid::proto::Request;
use ce_grid::sorted_map::SortedMap;
use ce_grid::space::Value;

fn flags(pairs: &[(&str, &str)]) -> Flags {
    let mut f: Flags = SortedMap::new();
    for (n, v) in pairs {
        f.insert(n.to_string(), v.to_string());
    }
    f
}

fn words(args: &[&str]) -> Vec<String> {
    args.iter().map(|s| s.to_string()).collect()
}

fn command(cmd: &str, args: &[&str]) -> Result<Request, String> {
    let (flags, pos) = parse_args(&words(args));
    parse_command(cmd, &flags, &pos, None)
}

fn shown(r: Result<Request, String>) -> String {
    format!("{:?}", r.unwrap())
}

#[test]
fn coords_parsing() {
    let c = parse_coords("document=d1,representation=raw").unwrap();
    assert_eq!(c.get("document").unwrap(), "d1");
    assert_eq!(c.get("representation").unwrap(), "raw");
    assert!(parse_coords("noequals").is_err());
    assert!(parse_coords("=x").is_err());
    assert!(parse_coords("x=").is_err());
    assert!(parse_coords("").unwrap().is_empty());
}

#[test]
fn value_parsing() {
    let mut f: Flags = SortedMap::new();
    f.insert("text".to_string(), "hi".to_string());
    assert_eq!(parse_value(&f, None).unwrap(), Value::Text { text: "hi".into() });

    let mut f: Flags = SortedMap::new();
    f.insert("ref".to_string(), "blob:abc123".to_string());
    match parse_value(&f, None).unwrap() {
        Value::Ref { r } => assert_eq!(r.scheme, "blob"),
        other => panic!("unexpected {other:?}"),
    }

    let f: Flags = SortedMap::new();
    assert!(parse_value(&f, None).is_err());
}

#[test]
fn flag_parsing() {
    let args: Vec<String> =
        ["s1", "--at", "k=v", "--text", "hello"].iter().map(|s| s.to_string()).collect();
    let (flags, pos) = parse_args(&args);
    assert_eq!(pos, vec!["s1".to_string()]);
    assert_eq!(flags.get("at").unwrap(), "k=v");
    assert_eq!(flags.get("text").unwrap(), "hello");
}

#[test]
fn a_flag_takes_whatever_follows_it() {
    let (flags, pos) = parse_args(&words(&["--a", "--b", "x", "--", "y", "-z", "--last"]));
    assert_eq!(flags.keys(), vec!["", "a", "last"]);
    assert_eq!(flags.get("a").unwrap(), "--b");
    assert_eq!(flags.get("").unwrap(), "y");
    assert_eq!(flags.get("last").unwrap(), "");
    assert_eq!(pos, words(&["x", "-z"]));
    let (flags, _) = parse_args(&words(&["--a", "1", "--a", "2"]));
    assert_eq!(flags.get("a").unwrap(), "2");
    let (flags, pos) = parse_args(&Vec::new());
    assert!(flags.is_empty());
    assert!(pos.is_empty());
}

#[test]
fn bad_coordinates_are_named() {
    assert_eq!(
        parse_coords("a=1,noequals,=x").unwrap_err(),
        "bad coordinate 'noequals' (want dim=key)"
    );
    assert_eq!(parse_coords("=x").unwrap_err(), "bad coordinate '=x' (empty side)");
    assert_eq!(parse_coords("x=").unwrap_err(), "bad coordinate 'x=' (empty side)");
    // Empty parts are passed over, later ones win, and a key may hold an equals sign.
    let c = parse_coords(",,a=1,,b=x=y,a=2,").unwrap();
    assert_eq!(c.keys(), vec!["a", "b"]);
    assert_eq!(c.get("a").unwrap(), "2");
    assert_eq!(c.get("b").unwrap(), "x=y");
}

#[test]
fn a_spelled_tuple_is_read_back() {
    let spelled = "document=contract-14,policy=gdpr-retention,time=2026-07";
    let c = parse_coords(spelled).unwrap();
    let parts: Vec<String> =
        (0..c.len()).map(|i| format!("{}={}", c.key_at(i), c.value_at(i))).collect();
    assert_eq!(parts.join(","), spelled);
}

#[test]
fn integers_have_sixty_four_bits() {
    assert_eq!(parse_integer("0"), Some(0));
    assert_eq!(parse_integer("+0017"), Some(17));
    assert_eq!(parse_integer("-42"), Some(-42));
    assert_eq!(parse_integer("9223372036854775807"), Some(i64::MAX));
    assert_eq!(parse_integer("9223372036854775808"), None);
    assert_eq!(parse_integer("-9223372036854775808"), Some(i64::MIN));
    assert_eq!(parse_integer("-9223372036854775809"), None);
    assert_eq!(parse_integer("99999999999999999999999"), None);
    for bad in ["", "-", "+", "--1", "1a", " 1", "1_000", "0x10", "٣"] {
        assert_eq!(parse_integer(bad), None);
        assert!(bad.parse::<i64>().is_err());
    }
}

#[test]
fn each_kind_of_value_has_its_flag() {
    let number = Some("1.5".to_string());
    assert_eq!(
        parse_value(&flags(&[("number", "1.5")]), number.clone()).unwrap(),
        Value::Number { number: "1.5".into() }
    );
    assert_eq!(
        parse_value(&flags(&[("bool", "true")]), None).unwrap(),
        Value::Bool { bool: true }
    );
    assert_eq!(
        parse_value(&flags(&[("bool", "false")]), None).unwrap(),
        Value::Bool { bool: false }
    );
    assert_eq!(
        parse_value(&flags(&[("ts", "-12")]), None).unwrap(),
        Value::Timestamp { ms: -12 }
    );
    assert_eq!(
        parse_value(&flags(&[("json", "{ \"a\": [1] }")]), None).unwrap(),
        Value::Json { json: Json { text: "{\"a\":[1]}".into() } }
    );
    // The first kind in order counts.
    assert_eq!(
        parse_value(&flags(&[("text", "t"), ("bool", "no"), ("ts", "x")]), None).unwrap(),
        Value::Text { text: "t".into() }
    );
    assert_eq!(
        value_from(&flags(&[("json", "?")]), None, Some(Json { text: "7".into() })).unwrap(),
        Value::Json { json: Json { text: "7".into() } }
    );
}

#[test]
fn bad_values_are_named() {
    let complaint = |pairs: &[(&str, &str)]| parse_value(&flags(pairs), None).unwrap_err();
    assert_eq!(complaint(&[("number", "x")]), "--number wants a float");
    assert_eq!(complaint(&[("bool", "yes")]), "--bool wants true|false");
    assert_eq!(complaint(&[("ts", "soon")]), "--ts wants epoch millis");
    assert_eq!(complaint(&[("json", "{oops")]), "--json wants valid JSON");
    assert_eq!(complaint(&[("ref", "noscheme")]), "--ref wants scheme:address");
    assert_eq!(
        complaint(&[]),
        "give the value: --text | --number | --bool | --ts | --json | --ref"
    );
}

#[test]
fn each_command_stands_for_its_request() {
    assert_eq!(shown(command("spaces", &[])), "Spaces");
    match command("create", &["audit"]).unwrap() {
        Request::CreateSpace { space } => assert_eq!(space, "audit"),
        other => panic!("unexpected {other:?}"),
    }
    match command("describe", &["audit"]).unwrap() {
        Request::Describe { space } => assert_eq!(space, "audit"),
        other => panic!("unexpected {other:?}"),
    }
    match command("dim", &["audit", "time", "--kind", "time"]).unwrap() {
        Request::AddDimension { space, name, kind } => {
            assert_eq!((space.as_str(), name.as_str(), kind.as_str()), ("audit", "time", "time"));
        }
        other => panic!("unexpected {other:?}"),
    }
    match command("dim", &["audit", "time"]).unwrap() {
        Request::AddDimension { kind, .. } => assert_eq!(kind, "string"),
        other => panic!("unexpected {other:?}"),
    }
    match command("coord", &["audit", "time", "t0"]).unwrap() {
        Request::AddCoordinate { space, dimension, key } => {
            assert_eq!((space.as_str(), dimension.as_str(), key.as_str()), ("audit", "time", "t0"));
        }
        other => panic!("unexpected {other:?}"),
    }
    match command("set", &["audit", "--at", "document=d1", "--text", "hi"]).unwrap() {
        Request::SetCell { space, coords, value } => {
            assert_eq!(space, "audit");
            assert_eq!(coords, parse_coords("document=d1").unwrap());
            assert_eq!(value, Value::Text { text: "hi".into() });
        }
        other => panic!("unexpected {other:?}"),
    }
    match command("clear", &["audit", "--at", "document=d1"]).unwrap() {
        Request::ClearCell { coords, .. } => {
            assert_eq!(coords, parse_coords("document=d1").unwrap())
        }
        other => panic!("unexpected {other:?}"),
    }
    match command("get", &["audit", "--at", "document=d1"]).unwrap() {
        Request::Get { coords, .. } => assert_eq!(coords, parse_coords("document=d1").unwrap()),
        other => panic!("unexpected {other:?}"),
    }
    match command("slice", &["audit"]).unwrap() {
        Request::Slice { fixed, .. } => assert!(fixed.is_empty()),
        other => panic!("unexpected {other:?}"),
    }
    match command("slice", &["audit", "--fix", "representation=label"]).unwrap() {
        Request::Slice { fixed, .. } => {
            assert_eq!(fixed, parse_coords("representation=label").unwrap())
        }
        other => panic!("unexpected {other:?}"),
    }
    match command("rule", &[
        "audit", "--id", "to-text", "--converter", "grid.convert.text", "--target", "text",
        "--source", "document=d1", "--params", "{\"n\": 1}",
    ])
    .unwrap()
    {
        Request::DefineRule { space, rule } => {
            assert_eq!(space, "audit");
            assert_eq!(rule.id, "to-text");
            assert_eq!(rule.source, parse_coords("document=d1").unwrap());
            assert_eq!(rule.converter, "grid.convert.text");
            assert_eq!(rule.target_representation, "text");
            assert_eq!(rule.params, Some(Json { text: "{\"n\":1}".into() }));
        }
        other => panic!("unexpected {other:?}"),
    }
    match command("rules", &["audit"]).unwrap() {
        Request::Rules { space } => assert_eq!(space, "audit"),
        other => panic!("unexpected {other:?}"),
    }
    match command("materialize", &["audit", "--rule", "r"]).unwrap() {
        Request::Materialize { rule, .. } => assert_eq!(rule, Some("r".to_string())),
        other => panic!("unexpected {other:?}"),
    }
    match command("materialize", &["audit"]).unwrap() {
        Request::Materialize { rule, .. } => assert_eq!(rule, None),
        other => panic!("unexpected {other:?}"),
    }
    match command("analyze", &["audit", "--op", "check", "--params", "{\"policy\":\"p\"}"]).unwrap()
    {
        Request::Analyze { space, op, fixed, params } => {
            assert_eq!((space.as_str(), op.as_str()), ("audit", "check"));
            assert!(fixed.is_empty());
            assert_eq!(params.unwrap().json.text, "{\"policy\":\"p\"}");
        }
        other => panic!("unexpected {other:?}"),
    }
    match request_from(
        "set",
        &flags(&[("at", "k=v"), ("number", "2")]),
        &words(&["s"]),
        Some("2.0".into()),
        None,
        None,
    )
    .unwrap()
    {
        Request::SetCell { value, .. } => assert_eq!(value, Value::Number { number: "2.0".into() }),
        other => panic!("unexpected {other:?}"),
    }
}

#[test]
fn what_a_command_lacks_is_named() {
    let complaint = |cmd: &str, args: &[&str]| command(cmd, args).unwrap_err();
    for cmd in [
        "create", "describe", "dim", "coord", "set", "clear", "get", "slice", "rule", "rules",
        "materialize", "analyze",
    ] {
        assert_eq!(complaint(cmd, &[]), format!("missing <space>\n\n{USAGE}"));
    }
    assert_eq!(complaint("dim", &["s"]), "missing <name>");
    assert_eq!(complaint("coord", &["s"]), "missing <dim>");
    assert_eq!(complaint("coord", &["s", "d"]), "missing <key>");
    for cmd in ["set", "clear", "get"] {
        assert_eq!(complaint(cmd, &["s"]), "missing --at");
        assert_eq!(
            complaint(cmd, &["s", "--at", "x"]),
            "bad coordinate 'x' (want dim=key)"
        );
    }
    assert_eq!(
        complaint("set", &["s", "--at", "k=v"]),
        "give the value: --text | --number | --bool | --ts | --json | --ref"
    );
    assert_eq!(complaint("slice", &["s", "--fix", "=v"]), "bad coordinate '=v' (empty side)");
    assert_eq!(complaint("rule", &["s"]), "missing --id");
    assert_eq!(complaint("rule", &["s", "--id", "r"]), "missing --converter");
    assert_eq!(
        complaint("rule", &["s", "--id", "r", "--source", "x"]),
        "bad coordinate 'x' (want dim=key)"
    );
    assert_eq!(complaint("rule", &["s", "--id", "r", "--converter", "c"]), "missing --target");
    assert_eq!(
        complaint("rule", &[
            "s", "--id", "r", "--converter", "c", "--target", "t", "--params", "{oops",
        ]),
        "--params wants JSON"
    );
    assert_eq!(complaint("analyze", &["s"]), "missing --op");
    assert_eq!(
        complaint("analyze", &["s", "--op", "check", "--params", "?"]),
        "--params wants JSON"
    );
    assert_eq!(complaint("fly", &["s"]), format!("unknown command 'fly'\n\n{USAGE}"));
}
