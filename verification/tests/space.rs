use ce_grid::sorted_map::SortedMap;
use ce_grid::space::{
    cell_key, Coords, Derivation, Op, Ref, Rule, Space, SpaceMachine, Stamped, Value, RAW,
    REPRESENTATION,
};

fn coords(pairs: &[(&str, &str)]) -> Coords {
    let mut c: Coords = SortedMap::new();
    for (d, k) in pairs {
        c.insert(d.to_string(), k.to_string());
    }
    c
}

fn text(t: &str) -> Value {
    Value::Text { text: t.to_string() }
}

fn machine_with_space(name: &str) -> SpaceMachine {
    let mut m = SpaceMachine::default();
    let op = m.stamp("a", Op::CreateSpace { space: name.into() });
    m.apply(&op);
    m
}

fn set(space: &str, at: &Coords, value: &str) -> Op {
    Op::SetCell { space: space.into(), coords: at.clone(), value: text(value) }
}

fn stamped(lamport: u64, writer: &str, inner: Op) -> Stamped {
    Stamped { lamport, writer: writer.into(), inner }
}

#[test]
fn create_space_has_representation_axis() {
    let m = machine_with_space("s");
    let s = m.spaces.get("s").unwrap();
    assert_eq!(s.dimensions.get(REPRESENTATION).unwrap().coords, vec![RAW.to_string()]);
}

#[test]
fn set_and_get_full_point() {
    let mut m = machine_with_space("s");
    let at = coords(&[("document", "d1"), ("representation", "raw")]);
    let op = m.stamp("a", Op::SetCell { space: "s".into(), coords: at.clone(), value: text("hello") });
    m.apply(&op);
    let c = m.get("s", &at).expect("cell");
    assert_eq!(c.value, Some(text("hello")));
}

#[test]
fn partial_tuple_spans_subspace() {
    let mut m = machine_with_space("s");
    // Policy text exists once, addressed only by policy.
    let policy_cell = coords(&[("policy", "gdpr")]);
    let op = m.stamp("a", Op::SetCell { space: "s".into(), coords: policy_cell, value: text("retain nothing") });
    m.apply(&op);
    // It resolves at any point that pins policy=gdpr plus more dims.
    let at = coords(&[("policy", "gdpr"), ("document", "d42"), ("representation", "raw")]);
    let c = m.get("s", &at).expect("spanning cell");
    assert_eq!(c.value, Some(text("retain nothing")));
    // And it is NOT visible where policy differs.
    let other = coords(&[("policy", "ccpa"), ("document", "d42")]);
    assert!(m.get("s", &other).is_none());
}

#[test]
fn more_specific_cell_wins_at_a_point() {
    let mut m = machine_with_space("s");
    let broad = m.stamp("a", Op::SetCell {
        space: "s".into(),
        coords: coords(&[("policy", "gdpr")]),
        value: text("default"),
    });
    m.apply(&broad);
    let narrow = m.stamp("a", Op::SetCell {
        space: "s".into(),
        coords: coords(&[("policy", "gdpr"), ("document", "d1")]),
        value: text("override"),
    });
    m.apply(&narrow);
    let at = coords(&[("policy", "gdpr"), ("document", "d1")]);
    assert_eq!(m.get("s", &at).unwrap().value, Some(text("override")));
    // The broad cell still answers for other documents.
    let elsewhere = coords(&[("policy", "gdpr"), ("document", "d2")]);
    assert_eq!(m.get("s", &elsewhere).unwrap().value, Some(text("default")));
}

#[test]
fn slice_filters_by_fixed_dims() {
    let mut m = machine_with_space("s");
    for (doc, rep, v) in [("d1", "raw", "a"), ("d1", "text", "b"), ("d2", "raw", "c")] {
        let op = m.stamp("a", Op::SetCell {
            space: "s".into(),
            coords: coords(&[("document", doc), ("representation", rep)]),
            value: text(v),
        });
        m.apply(&op);
    }
    let raws = m.slice("s", &coords(&[("representation", "raw")]));
    assert_eq!(raws.len(), 2);
    let d1 = m.slice("s", &coords(&[("document", "d1")]));
    assert_eq!(d1.len(), 2);
}

#[test]
fn lww_converges_regardless_of_order() {
    let mut m1 = machine_with_space("s");
    let mut m2 = machine_with_space("s");
    let at = coords(&[("k", "x")]);
    let op_a = Stamped {
        lamport: 5,
        writer: "a".into(),
        inner: Op::SetCell { space: "s".into(), coords: at.clone(), value: text("from-a") },
    };
    let op_b = Stamped {
        lamport: 7,
        writer: "b".into(),
        inner: Op::SetCell { space: "s".into(), coords: at.clone(), value: text("from-b") },
    };
    m1.apply(&op_a);
    m1.apply(&op_b);
    m2.apply(&op_b);
    m2.apply(&op_a);
    assert_eq!(m1.spaces, m2.spaces);
    assert_eq!(m1.get("s", &at).unwrap().value, Some(text("from-b")));
}

#[test]
fn lww_tiebreak_by_writer_is_deterministic() {
    let mut m1 = machine_with_space("s");
    let mut m2 = machine_with_space("s");
    let at = coords(&[("k", "x")]);
    let op_a = Stamped {
        lamport: 5,
        writer: "a".into(),
        inner: Op::SetCell { space: "s".into(), coords: at.clone(), value: text("from-a") },
    };
    let op_b = Stamped {
        lamport: 5,
        writer: "b".into(),
        inner: Op::SetCell { space: "s".into(), coords: at.clone(), value: text("from-b") },
    };
    m1.apply(&op_a);
    m1.apply(&op_b);
    m2.apply(&op_b);
    m2.apply(&op_a);
    assert_eq!(m1.spaces, m2.spaces);
    // Higher writer id wins the tie.
    assert_eq!(m1.get("s", &at).unwrap().value, Some(text("from-b")));
}

#[test]
fn apply_is_idempotent() {
    let mut m = machine_with_space("s");
    let op = m.stamp("a", Op::SetCell {
        space: "s".into(),
        coords: coords(&[("k", "x")]),
        value: text("v"),
    });
    m.apply(&op);
    let snapshot = m.clone();
    m.apply(&op);
    assert_eq!(m, snapshot);
}

#[test]
fn clear_cell_tombstones() {
    let mut m = machine_with_space("s");
    let at = coords(&[("k", "x")]);
    let set = m.stamp("a", Op::SetCell { space: "s".into(), coords: at.clone(), value: text("v") });
    m.apply(&set);
    let clear = m.stamp("a", Op::ClearCell { space: "s".into(), coords: at.clone() });
    m.apply(&clear);
    assert!(m.get("s", &at).is_none());
    assert!(m.slice("s", &Coords::new()).is_empty());
    // Late-arriving older write does not resurrect it.
    let old = Stamped {
        lamport: 1,
        writer: "z".into(),
        inner: Op::SetCell { space: "s".into(), coords: at.clone(), value: text("stale") },
    };
    m.apply(&old);
    assert!(m.get("s", &at).is_none());
}

#[test]
fn coordinates_register_implicitly_and_explicitly() {
    let mut m = machine_with_space("s");
    let add_dim = m.stamp("a", Op::AddDimension { space: "s".into(), name: "doc".into(), kind: "string".into() });
    m.apply(&add_dim);
    let add_coord = m.stamp("a", Op::AddCoordinate { space: "s".into(), dimension: "doc".into(), key: "d1".into() });
    m.apply(&add_coord);
    let set = m.stamp("a", Op::SetCell {
        space: "s".into(),
        coords: coords(&[("doc", "d2")]),
        value: text("v"),
    });
    m.apply(&set);
    assert_eq!(
        m.spaces.get("s").unwrap().dimensions.get("doc").unwrap().coords,
        vec!["d1".to_string(), "d2".to_string()]
    );
}

#[test]
fn derived_cell_carries_provenance() {
    let mut m = machine_with_space("s");
    let at = coords(&[("document", "d1"), ("representation", "text")]);
    let op = m.stamp("conv", Op::SetDerived {
        space: "s".into(),
        coords: at.clone(),
        value: text("plain rendering"),
        derivation: Derivation {
            rule_id: "r1".into(),
            converter: "grid.convert.text".into(),
            input_key: "abc123".into(),
        },
    });
    m.apply(&op);
    let k = cell_key(&at);
    assert_eq!(m.spaces.get("s").unwrap().derived.get(&k).unwrap().converter, "grid.convert.text");
}

#[test]
fn ref_parse_roundtrip() {
    let r = Ref::parse("blob:ab12cd").unwrap();
    assert_eq!(r.scheme, "blob");
    assert_eq!(r.address, "ab12cd");
    assert_eq!(r.uri(), "blob:ab12cd");
    assert!(Ref::parse("noscheme").is_none());
    // twin refs keep their full path address
    let t = Ref::parse("twin:node1/kitchen/temp").unwrap();
    assert_eq!(t.address, "node1/kitchen/temp");
}

#[test]
fn stamp_advances_past_observed_remote_clock() {
    let mut m = machine_with_space("s");
    let remote = Stamped {
        lamport: 99,
        writer: "remote".into(),
        inner: Op::CreateSpace { space: "other".into() },
    };
    m.apply(&remote);
    let local = m.stamp("me", Op::CreateSpace { space: "third".into() });
    assert_eq!(local.lamport, 100);
}

#[test]
fn ref_needs_both_sides_and_splits_at_the_first_colon() {
    assert!(Ref::parse(":address").is_none());
    assert!(Ref::parse("scheme:").is_none());
    assert!(Ref::parse("").is_none());
    let r = Ref::parse("url:https://example.org").unwrap();
    assert_eq!(r.scheme, "url");
    assert_eq!(r.address, "https://example.org");
    assert_eq!(r.content_hint, None);
    assert_eq!(r.snapshot_cid, None);
    assert_eq!(r.uri(), "url:https://example.org");
}

#[test]
fn canonical_key_sorts_dimensions() {
    assert_eq!(
        cell_key(&coords(&[("time", "2026-07"), ("document", "d1"), ("policy", "gdpr")])),
        "document=d1\u{1f}policy=gdpr\u{1f}time=2026-07"
    );
    assert_eq!(cell_key(&Coords::new()), "");
    assert_eq!(cell_key(&coords(&[("é", "ü"), ("z", "1")])), "z=1\u{1f}é=ü");
}

#[test]
fn planes_have_keys_of_their_own() {
    let raw = coords(&[("document", "d1"), (REPRESENTATION, RAW)]);
    let mut moved = raw.clone();
    moved.insert(REPRESENTATION.to_string(), "text".to_string());
    assert_ne!(cell_key(&raw), cell_key(&moved));
    let bare = coords(&[("document", "d1")]);
    assert_ne!(cell_key(&bare), cell_key(&raw));
}

#[test]
fn separators_inside_an_address_can_blur_its_key() {
    let one = coords(&[("a", "1\u{1f}b=2")]);
    let two = coords(&[("a", "1"), ("b", "2")]);
    assert_eq!(cell_key(&one), cell_key(&two));
    assert_ne!(one, two);
}

#[test]
fn a_map_keeps_its_keys_ascending() {
    let mut m: SortedMap<String> = SortedMap::new();
    assert!(m.is_empty());
    for k in ["pear", "apple", "fig", "apple", "app"] {
        m.insert(k.to_string(), k.to_uppercase());
    }
    assert_eq!(m.len(), 4);
    assert_eq!(m.keys(), vec!["app", "apple", "fig", "pear"]);
    assert_eq!(m.values(), vec!["APP", "APPLE", "FIG", "PEAR"]);
    assert_eq!(m.key_at(2), "fig");
    assert_eq!(m.value_at(2), "FIG");
    assert_eq!(m.remove("fig"), Some("FIG".to_string()));
    assert_eq!(m.remove("fig"), None);
    assert!(!m.contains_key("fig"));
    assert_eq!(m.get("pear").unwrap(), "PEAR");
    m.insert("pear".to_string(), "again".to_string());
    assert_eq!(m.get("pear").unwrap(), "again");
    assert_eq!(m.len(), 3);
}

#[test]
fn a_second_creation_leaves_a_space_alone() {
    let mut m = machine_with_space("s");
    let at = coords(&[("k", "x")]);
    let op = m.stamp("a", set("s", &at, "v"));
    m.apply(&op);
    let before = m.spaces.clone();
    let again = m.stamp("a", Op::CreateSpace { space: "s".into() });
    m.apply(&again);
    assert_eq!(m.spaces, before);
    assert_eq!(m.clock, 3);
}

#[test]
fn a_declared_dimension_keeps_its_kind() {
    let mut m = machine_with_space("s");
    for op in [
        Op::AddDimension { space: "s".into(), name: "time".into(), kind: "time".into() },
        Op::AddDimension { space: "s".into(), name: "time".into(), kind: "string".into() },
        Op::AddCoordinate { space: "s".into(), dimension: "time".into(), key: "2026".into() },
        Op::AddCoordinate { space: "s".into(), dimension: "time".into(), key: "2026".into() },
        Op::AddCoordinate { space: "s".into(), dimension: "nowhere".into(), key: "x".into() },
    ] {
        let st = m.stamp("a", op);
        m.apply(&st);
    }
    let d = m.spaces.get("s").unwrap().dimensions.get("time").unwrap();
    assert_eq!(d.kind, "time");
    assert_eq!(d.coords, vec!["2026".to_string()]);
    assert!(m.spaces.get("s").unwrap().dimensions.get("nowhere").is_none());
}

#[test]
fn ops_on_a_missing_space_show_nothing_but_the_clock() {
    let mut m = machine_with_space("s");
    let before = m.spaces.clone();
    let at = coords(&[("k", "x")]);
    m.apply(&stamped(41, "z", set("nowhere", &at, "v")));
    m.apply(&stamped(42, "z", Op::ClearCell { space: "nowhere".into(), coords: at.clone() }));
    assert_eq!(m.spaces, before);
    assert_eq!(m.clock, 42);
    assert!(m.get("nowhere", &at).is_none());
    assert!(m.slice("nowhere", &at).is_empty());
}

#[test]
fn a_plain_write_drops_provenance() {
    let mut m = machine_with_space("s");
    let at = coords(&[("document", "d1"), ("representation", "text")]);
    let derivation =
        Derivation { rule_id: "r".into(), converter: "c".into(), input_key: "k".into() };
    let op = m.stamp("a", Op::SetDerived {
        space: "s".into(),
        coords: at.clone(),
        value: text("derived"),
        derivation: derivation.clone(),
    });
    m.apply(&op);
    assert_eq!(m.spaces.get("s").unwrap().derived.get(&cell_key(&at)), Some(&derivation));
    let op = m.stamp("a", set("s", &at, "by hand"));
    m.apply(&op);
    assert!(m.spaces.get("s").unwrap().derived.is_empty());
    assert_eq!(m.get("s", &at).unwrap().value, Some(text("by hand")));
}

#[test]
fn of_two_equally_specific_cells_the_later_one_answers() {
    let mut m = machine_with_space("s");
    let a = coords(&[("a", "1")]);
    let b = coords(&[("b", "2")]);
    m.apply(&stamped(9, "w", set("s", &a, "early")));
    m.apply(&stamped(10, "w", set("s", &b, "late")));
    let at = coords(&[("a", "1"), ("b", "2")]);
    assert_eq!(m.get("s", &at).unwrap().value, Some(text("late")));
    // With the same stamp, the last one in key order answers.
    m.apply(&stamped(10, "x", set("s", &a, "tied")));
    assert_eq!(m.get("s", &at).unwrap().value, Some(text("late")));
}

#[test]
fn replicas_meet_whatever_the_order() {
    let at = |k: &str| coords(&[("document", k), ("representation", "raw")]);
    let create = stamped(1, "a", Op::CreateSpace { space: "s".into() });
    let ops = [
        stamped(2, "a", set("s", &at("d1"), "one")),
        stamped(3, "b", set("s", &at("d2"), "two")),
        stamped(3, "c", set("s", &at("d1"), "three")),
        stamped(4, "a", Op::ClearCell { space: "s".into(), coords: at("d2") }),
        stamped(5, "b", Op::DefineRule {
            space: "s".into(),
            rule: Rule {
                id: "r".into(),
                source: Coords::new(),
                converter: "c".into(),
                target_representation: "text".into(),
                params: None,
            },
        }),
    ];
    let orders = [[0, 1, 2, 3, 4], [4, 3, 2, 1, 0], [2, 0, 4, 1, 3], [3, 1, 0, 2, 4]];
    let mut ends = Vec::new();
    for order in orders {
        let mut m = SpaceMachine::default();
        m.apply(&create);
        for i in order {
            m.apply(&ops[i]);
            // Deliver some of them twice.
            if i % 2 == 0 {
                m.apply(&ops[i]);
            }
        }
        ends.push(m);
    }
    for m in &ends {
        assert_eq!(m, &ends[0]);
        assert_eq!(m.clock, 5);
        assert_eq!(m.get("s", &at("d1")).unwrap().value, Some(text("three")));
        assert!(m.get("s", &at("d2")).is_none());
        let s = m.spaces.get("s").unwrap();
        assert_eq!(s.dimensions.get("document").unwrap().coords, vec!["d1", "d2"]);
        assert_eq!(s.dimensions.get(REPRESENTATION).unwrap().coords, vec![RAW]);
    }
}

#[test]
fn the_definition_with_the_highest_stamp_wins() {
    let rule = |converter: &str| Rule {
        id: "r1".into(),
        source: Coords::new(),
        converter: converter.into(),
        target_representation: "text".into(),
        params: None,
    };
    let define = |lamport: u64, writer: &str, converter: &str| {
        stamped(lamport, writer, Op::DefineRule { space: "s".into(), rule: rule(converter) })
    };
    let mut m = machine_with_space("s");
    m.apply(&define(7, "a", "new"));
    m.apply(&define(5, "a", "old"));
    assert_eq!(m.spaces.get("s").unwrap().rules.get("r1").unwrap().converter, "new");
    assert_eq!(m.clock, 7);
    // A tie goes to the greater writer, whatever the order.
    m.apply(&define(7, "b", "tied"));
    m.apply(&define(7, "a", "again"));
    assert_eq!(m.spaces.get("s").unwrap().rules.get("r1").unwrap().converter, "tied");
    // A local definition stands.
    let op = m.stamp("a", Op::DefineRule { space: "s".into(), rule: rule("local") });
    m.apply(&op);
    assert_eq!(m.spaces.get("s").unwrap().rules.get("r1").unwrap().converter, "local");
}

#[test]
fn a_narrower_slice_shows_no_more() {
    let mut m = machine_with_space("s");
    for (doc, rep) in [("d1", "raw"), ("d1", "text"), ("d2", "raw")] {
        let at = coords(&[("document", doc), ("representation", rep)]);
        let op = m.stamp("a", set("s", &at, doc));
        m.apply(&op);
    }
    let op = m.stamp("a", set("s", &coords(&[("policy", "gdpr")]), "spans"));
    m.apply(&op);
    let wide = m.slice("s", &coords(&[("document", "d1")]));
    let narrow = m.slice("s", &coords(&[("document", "d1"), ("representation", "raw")]));
    // The policy cell names neither dimension, so it is seen from both.
    assert_eq!((wide.len(), narrow.len()), (3, 2));
    assert!(narrow.iter().all(|c| wide.contains(c)));
    // What answers at a point is seen from the slice at that point.
    let at = coords(&[("document", "d1"), ("representation", "raw")]);
    let answer = m.get("s", &at).unwrap();
    assert!(narrow.contains(&answer));
}

#[test]
fn an_op_that_comes_before_its_space_waits_for_it() {
    let at = coords(&[("k", "x")]);
    let create = stamped(1, "a", Op::CreateSpace { space: "s".into() });
    let write = stamped(2, "a", set("s", &at, "v"));
    let mut late = SpaceMachine::default();
    late.apply(&create);
    late.apply(&write);
    let mut early = SpaceMachine::default();
    early.apply(&write);
    // Nothing of it is seen before the space is created.
    assert!(early.spaces.is_empty());
    assert!(early.get("s", &at).is_none());
    early.apply(&create);
    assert_eq!(early.get("s", &at).unwrap().value, Some(text("v")));
    assert!(early.waiting.is_empty());
    assert_eq!(early, late);
}

#[test]
fn a_coordinate_that_comes_before_its_dimension_waits_for_it() {
    let key = |lamport: u64, key: &str| {
        stamped(lamport, "a", Op::AddCoordinate {
            space: "s".into(),
            dimension: "time".into(),
            key: key.into(),
        })
    };
    let declare = stamped(3, "a", Op::AddDimension {
        space: "s".into(),
        name: "time".into(),
        kind: "time".into(),
    });
    let mut early = machine_with_space("s");
    early.apply(&key(5, "t1"));
    early.apply(&key(4, "t0"));
    assert!(early.spaces.get("s").unwrap().dimensions.get("time").is_none());
    early.apply(&declare);
    let mut late = machine_with_space("s");
    late.apply(&declare);
    late.apply(&key(4, "t0"));
    late.apply(&key(5, "t1"));
    assert_eq!(early, late);
    let d = late.spaces.get("s").unwrap().dimensions.get("time").unwrap();
    assert_eq!((d.kind.as_str(), d.coords.clone()), ("time", vec!["t0".into(), "t1".into()]));
}

#[test]
fn coordinates_stand_by_the_least_stamp_that_brought_them() {
    let x = stamped(5, "a", set("s", &coords(&[("k", "x")]), "1"));
    let y = stamped(7, "b", set("s", &coords(&[("k", "y")]), "2"));
    let mut m1 = machine_with_space("s");
    m1.apply(&x);
    m1.apply(&y);
    let mut m2 = machine_with_space("s");
    m2.apply(&y);
    m2.apply(&x);
    assert_eq!(m1, m2);
    assert_eq!(m1.spaces.get("s").unwrap().dimensions.get("k").unwrap().coords, vec!["x", "y"]);
    // A coordinate that turns out to be older moves forward.
    m1.apply(&stamped(2, "a", set("s", &coords(&[("k", "y"), ("l", "z")]), "3")));
    assert_eq!(m1.spaces.get("s").unwrap().dimensions.get("k").unwrap().coords, vec!["y", "x"]);
    // The raw plane stays in front, whatever the stamp.
    m1.apply(&stamped(0, "", set("s", &coords(&[(REPRESENTATION, "a")]), "4")));
    assert_eq!(
        m1.spaces.get("s").unwrap().dimensions.get(REPRESENTATION).unwrap().coords,
        vec![RAW, "a"]
    );
}

#[test]
fn the_kind_of_the_least_stamp_counts() {
    let declare = stamped(5, "a", Op::AddDimension {
        space: "s".into(),
        name: "n".into(),
        kind: "number".into(),
    });
    let write = stamped(6, "a", set("s", &coords(&[("n", "1")]), "v"));
    let mut m1 = machine_with_space("s");
    m1.apply(&declare);
    m1.apply(&write);
    let mut m2 = machine_with_space("s");
    m2.apply(&write);
    m2.apply(&declare);
    assert_eq!(m1, m2);
    assert_eq!(m1.spaces.get("s").unwrap().dimensions.get("n").unwrap().kind, "number");
    // What is there from birth keeps its kind.
    m1.apply(&stamped(0, "", Op::AddDimension {
        space: "s".into(),
        name: REPRESENTATION.into(),
        kind: "number".into(),
    }));
    assert_eq!(m1.spaces.get("s").unwrap().dimensions.get(REPRESENTATION).unwrap().kind, "string");
}

#[test]
fn an_empty_space_is_the_default() {
    let s = Space::default();
    assert_eq!(s.name, "");
    assert!(s.dimensions.is_empty() && s.cells.is_empty() && s.rules.is_empty());
    assert!(s.derived.is_empty() && s.rule_stamps.is_empty() && s.waiting.is_empty());
}

#[test]
fn a_late_second_delivery_changes_nothing() {
    let mut m = machine_with_space("s");
    let at = coords(&[("k", "x")]);
    let first = m.stamp("a", set("s", &at, "first"));
    m.apply(&first);
    let second = m.stamp("a", set("s", &at, "second"));
    m.apply(&second);
    let before = m.clone();
    m.apply(&first);
    assert_eq!(m, before);
}
