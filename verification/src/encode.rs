//! The JSON text of values and addresses, as the wire protocol spells them.

use vstd::prelude::*;

use crate::json::{quote, quoted};
use crate::sorted_map::{key_order, views};
use crate::space::{
    view_opt, ComponentView, Coords, CoordsView, Ref, RefView, Value, ValueView,
};
use crate::text::{concat, join, join_text, signed_decimal, signed_decimal_text, Text};

verus! {

/// An optional string member, with the comma before it, or nothing.
pub open spec fn optional_member(name: Text, value: Option<Text>) -> Text {
    match value {
        Some(v) => ",\""@ + name + "\":"@ + quoted(v),
        None => Seq::empty(),
    }
}

/// The JSON text of a link.
pub open spec fn ref_json(r: RefView) -> Text {
    "{\"scheme\":"@ + quoted(r.scheme) + ",\"address\":"@ + quoted(r.address) + optional_member(
        "content_hint"@,
        r.content_hint,
    ) + optional_member("snapshot_cid"@, r.snapshot_cid) + "}"@
}

/// The components of a vector, each by its own JSON text.
pub open spec fn texts(vector: Seq<ComponentView>) -> Seq<Text> {
    vector.map_values(|c: ComponentView| c.text)
}

/// The components of a vector, each by its JSON text as a 64-bit float.
pub open spec fn wide_texts(vector: Seq<ComponentView>) -> Seq<Text> {
    vector.map_values(|c: ComponentView| c.wide)
}

/// The JSON text of a value: an object tagged on `kind`.
pub open spec fn value_json(v: ValueView) -> Text {
    match v {
        ValueView::Text { text } => "{\"kind\":\"text\",\"text\":"@ + quoted(text) + "}"@,
        ValueView::Number { number } => "{\"kind\":\"number\",\"number\":"@ + number + "}"@,
        ValueView::Bool { bool } => "{\"kind\":\"bool\",\"bool\":"@ + (if bool {
            "true"@
        } else {
            "false"@
        }) + "}"@,
        ValueView::Timestamp { ms } => "{\"kind\":\"timestamp\",\"ms\":"@ + signed_decimal(
            ms as int,
        ) + "}"@,
        ValueView::Json { json } => "{\"kind\":\"json\",\"json\":"@ + json + "}"@,
        ValueView::Vector { vector } => "{\"kind\":\"vector\",\"vector\":["@ + join(
            texts(vector),
            ","@,
        ) + "]}"@,
        ValueView::Ref { r } => "{\"kind\":\"ref\",\"r\":"@ + ref_json(r) + "}"@,
    }
}

/// The JSON text of a link inside a request to another service, with its members in
/// the order of their names.
pub open spec fn ref_payload(r: RefView) -> Text {
    "{\"address\":"@ + quoted(r.address) + optional_member("content_hint"@, r.content_hint)
        + ",\"scheme\":"@ + quoted(r.scheme) + optional_member("snapshot_cid"@, r.snapshot_cid)
        + "}"@
}

/// The JSON text of a value inside a request to another service: its members stand in
/// the order of their names, and the components of a vector are 64-bit floats.
pub open spec fn value_payload(v: ValueView) -> Text {
    match v {
        ValueView::Bool { bool } => "{\"bool\":"@ + (if bool {
            "true"@
        } else {
            "false"@
        }) + ",\"kind\":\"bool\"}"@,
        ValueView::Json { json } => "{\"json\":"@ + json + ",\"kind\":\"json\"}"@,
        ValueView::Vector { vector } => "{\"kind\":\"vector\",\"vector\":["@ + join(
            wide_texts(vector),
            ","@,
        ) + "]}"@,
        ValueView::Ref { r } => "{\"kind\":\"ref\",\"r\":"@ + ref_payload(r) + "}"@,
        _ => value_json(v),
    }
}

/// The JSON text of an address: an object from dimension to coordinate.
pub open spec fn coords_json(coords: CoordsView) -> Text {
    "{"@ + join(
        key_order(coords.dom()).map_values(|d: Text| quoted(d) + ":"@ + quoted(coords[d])),
        ","@,
    ) + "}"@
}

pub(crate) fn concat3(a: &str, b: &str, c: &str) -> (r: String)
    ensures
        r@ == a@ + b@ + c@,
{
    concat(concat(a, b).as_str(), c)
}

fn optional_member_text(name: &str, value: &Option<String>) -> (r: String)
    ensures
        r@ == optional_member(name@, view_opt(*value)),
{
    match value {
        Some(v) => {
            let head = concat3(",\"", name, "\":");
            concat(head.as_str(), quote(v.as_str()).as_str())
        },
        None => String::new(),
    }
}

fn ref_text(r: &Ref) -> (t: String)
    ensures
        t@ == ref_json(r@),
{
    let scheme = concat("{\"scheme\":", quote(r.scheme.as_str()).as_str());
    let address = concat3(scheme.as_str(), ",\"address\":", quote(r.address.as_str()).as_str());
    let hint = optional_member_text("content_hint", &r.content_hint);
    let snapshot = optional_member_text("snapshot_cid", &r.snapshot_cid);
    concat(concat3(address.as_str(), hint.as_str(), snapshot.as_str()).as_str(), "}")
}

/// Write a value as JSON.
pub fn value_text(v: &Value) -> (t: String)
    ensures
        t@ == value_json(v@),
{
    match v {
        Value::Text { text } => concat3(
            "{\"kind\":\"text\",\"text\":",
            quote(text.as_str()).as_str(),
            "}",
        ),
        Value::Number { number } => concat3(
            "{\"kind\":\"number\",\"number\":",
            number.as_str(),
            "}",
        ),
        Value::Bool { bool } => concat3(
            "{\"kind\":\"bool\",\"bool\":",
            if *bool {
                "true"
            } else {
                "false"
            },
            "}",
        ),
        Value::Timestamp { ms } => concat3(
            "{\"kind\":\"timestamp\",\"ms\":",
            signed_decimal_text(*ms).as_str(),
            "}",
        ),
        Value::Json { json } => concat3("{\"kind\":\"json\",\"json\":", json.text.as_str(), "}"),
        Value::Vector { vector } => {
            let mut parts: Vec<String> = Vec::new();
            let mut i: usize = 0;
            while i < vector.len()
                invariant
                    i <= vector.len(),
                    parts.len() == i,
                    forall|j: int| 0 <= j < i ==> (#[trigger] parts@[j])@ == vector@[j]@.text,
                decreases vector.len() - i,
            {
                parts.push(vector[i].text.clone());
                i += 1;
            }
            assert(Seq::new(parts@.len(), |i: int| parts@[i]@) =~= texts(views(vector@)));
            concat3("{\"kind\":\"vector\",\"vector\":[", join_text(&parts, ",").as_str(), "]}")
        },
        Value::Ref { r } => concat3("{\"kind\":\"ref\",\"r\":", ref_text(r).as_str(), "}"),
    }
}

fn ref_payload_text(r: &Ref) -> (t: String)
    ensures
        t@ == ref_payload(r@),
{
    let address = concat("{\"address\":", quote(r.address.as_str()).as_str());
    let hint = optional_member_text("content_hint", &r.content_hint);
    let scheme = concat3(address.as_str(), hint.as_str(), ",\"scheme\":");
    let snapshot = optional_member_text("snapshot_cid", &r.snapshot_cid);
    let both = concat3(scheme.as_str(), quote(r.scheme.as_str()).as_str(), snapshot.as_str());
    concat(both.as_str(), "}")
}

/// Write a value as a request to another service holds it.
pub fn payload_text(v: &Value) -> (t: String)
    ensures
        t@ == value_payload(v@),
{
    match v {
        Value::Bool { bool } => concat3(
            "{\"bool\":",
            if *bool {
                "true"
            } else {
                "false"
            },
            ",\"kind\":\"bool\"}",
        ),
        Value::Json { json } => concat3("{\"json\":", json.text.as_str(), ",\"kind\":\"json\"}"),
        Value::Vector { vector } => {
            let mut parts: Vec<String> = Vec::new();
            let mut i: usize = 0;
            while i < vector.len()
                invariant
                    i <= vector.len(),
                    parts.len() == i,
                    forall|j: int| 0 <= j < i ==> (#[trigger] parts@[j])@ == vector@[j]@.wide,
                decreases vector.len() - i,
            {
                parts.push(vector[i].wide.clone());
                i += 1;
            }
            assert(Seq::new(parts@.len(), |i: int| parts@[i]@) =~= wide_texts(views(vector@)));
            concat3("{\"kind\":\"vector\",\"vector\":[", join_text(&parts, ",").as_str(), "]}")
        },
        Value::Ref { r } => concat3("{\"kind\":\"ref\",\"r\":", ref_payload_text(r).as_str(), "}"),
        _ => value_text(v),
    }
}

/// Write an address as JSON.
pub fn coords_text(coords: &Coords) -> (t: String)
    ensures
        t@ == coords_json(coords@),
{
    let mut parts: Vec<String> = Vec::new();
    let n: usize = coords.len();
    let ghost order = key_order(coords@.dom());
    let mut i: usize = 0;
    while i < n
        invariant
            i <= n,
            order == key_order(coords@.dom()),
            n == order.len(),
            parts@.len() == i,
            forall|j: int|
                0 <= j < i ==> (#[trigger] parts@[j])@ == quoted(order[j]) + ":"@ + quoted(
                    coords@[order[j]],
                ),
        decreases n - i,
    {
        let dim = quote(coords.key_at(i).as_str());
        parts.push(concat3(dim.as_str(), ":", quote(coords.value_at(i).as_str()).as_str()));
        i += 1;
    }
    assert(Seq::new(parts@.len(), |i: int| parts@[i]@) =~= order.map_values(
        |d: Text| quoted(d) + ":"@ + quoted(coords@[d]),
    ));
    concat3("{", join_text(&parts, ",").as_str(), "}")
}

} // verus!
