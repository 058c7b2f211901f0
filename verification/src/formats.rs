//! How things are spelled: keys, numbers, links, and the JSON that goes to the hash and to
//! other services.

use vstd::prelude::*;
use vstd::utf8::{decode_utf8_encode_utf8, encode_utf8, is_char_boundary};

use crate::encode::{coords_json, value_json, value_payload};
use crate::json::{json_at, json_document, json_member, json_string, member_string, quoted};
use crate::materialize::{convert_answer, convert_request_json, converter_reply, WorkItemView};
use crate::proto::params_at;
use crate::service::{
    analysis_answer, analysis_reply, can_shorten, debug_quoted, question_json, shortened,
    shown_coords, AiRequestView, SliceCellView,
};
use crate::sorted_map::{key_order, lemma_key_order_insert, lemma_key_order_lists};
use crate::space::{
    canonical_key, parsed_ref, ref_uri, ComponentView, CoordsView, RefView, ValueView,
};
use crate::text::{decimal, join, lemma_first_at, signed_decimal, split_once, text_lt, Text};

verus! {

/// Nothing joined is nothing, one part is itself, and one more part comes behind the
/// separator.
pub proof fn law_joined(parts: Seq<Text>, part: Text, sep: Text)
    ensures
        join(Seq::empty(), sep).len() == 0,
        join(seq![part], sep) == part,
        parts.len() > 0 ==> join(parts.push(part), sep) == join(parts, sep) + sep + part,
{
    assert(parts.push(part).drop_last() =~= parts);
}

/// A number below ten is one digit, and a greater one is written digit by digit.
pub proof fn law_decimal(n: nat, d: nat)
    requires
        d < 10,
    ensures
        decimal(d) == seq![(48 + d) as char],
        n > 0 ==> decimal(n * 10 + d) == decimal(n).push((48 + d) as char),
        signed_decimal(n as int) == decimal(n),
        n > 0 ==> signed_decimal(-n) == seq!['-'] + decimal(n),
{
    assert((n * 10 + d) / 10 == n);
    assert((n * 10 + d) % 10 == d);
}

/// A text is cut in two at the first of a character: the character stands between the parts,
/// and not in the first of them. It is not cut only where the character is not in it.
pub proof fn law_cut(s: Text, c: char)
    ensures
        split_once(s, c) matches Some((head, tail)) ==> s == head + seq![c] + tail
            && !head.contains(c),
        split_once(s, c) is None ==> !s.contains(c),
{
    lemma_first_at(s, c);
    let i = crate::text::first_at(s, c);
    if i < s.len() {
        assert(s =~= s.take(i) + seq![c] + s.skip(i + 1));
        if s.take(i).contains(c) {
            let j = choose|j: int| 0 <= j < i && s.take(i)[j] == c;
            assert(s[j] == c);
        }
    } else if s.contains(c) {
        let j = choose|j: int| 0 <= j < s.len() && s[j] == c;
        assert(s[j] != c);
    }
}

/// A link is spelled as scheme and address with a colon between them. Of a text, the scheme
/// is what stands before the first colon and the address all that stands behind it; both
/// must be there, and nothing else is known of the link.
pub proof fn law_link_spelled(s: Text, r: RefView)
    ensures
        ref_uri(r) == r.scheme + seq![':'] + r.address,
        parsed_ref(s) matches Some(link) ==> {
            &&& s == link.scheme + seq![':'] + link.address
            &&& link.scheme.len() > 0 && !link.scheme.contains(':')
            &&& link.address.len() > 0
            &&& link.content_hint is None && link.snapshot_cid is None
        },
        parsed_ref(s) is None ==> !s.contains(':') || s[0] == ':' || (s.last() == ':'
            && !s.drop_last().contains(':')),
{
    reveal_strlit(":");
    assert(":"@ =~= seq![':']);
    law_cut(s, ':');
    if parsed_ref(s) is None && s.contains(':') {
        let (head, tail) = split_once(s, ':')->0;
        if head.len() == 0 {
            assert(s[0] == ':');
        } else {
            assert(tail.len() == 0);
            assert(s.drop_last() =~= head);
        }
    }
}

proof fn lemma_join_grown(
    coords: CoordsView,
    d: Text,
    f: spec_fn(Text) -> Text,
    g: spec_fn(Text) -> Text,
    sep: Text,
)
    requires
        coords.dom().finite(),
        forall|x: Text| #[trigger] coords.dom().contains(x) ==> text_lt(x, d) && f(x) == g(x),
        !coords.dom().contains(d),
    ensures
        join(key_order(coords.dom().insert(d)).map_values(g), sep) == (if coords
            == Map::<Text, Text>::empty() {
            g(d)
        } else {
            join(key_order(coords.dom()).map_values(f), sep) + sep + g(d)
        }),
{
    let order = key_order(coords.dom());
    lemma_key_order_lists(coords.dom());
    lemma_key_order_insert(coords.dom(), d);
    let grown = key_order(coords.dom().insert(d));
    if order.len() > 0 {
        assert(order.contains(order.last()));
        assert(coords.dom().contains(order.last()));
        assert(text_lt(order.last(), d));
        assert(coords.contains_key(order.last()));
        assert(coords != Map::<Text, Text>::empty());
    } else {
        assert forall|x: Text| !coords.dom().contains(x) by {
            assert(coords.dom().contains(x) <==> order.contains(x));
        }
        assert(coords =~= Map::<Text, Text>::empty());
    }
    assert(grown == order.push(d));
    assert forall|i: int| 0 <= i < order.len() implies f(#[trigger] order[i]) == g(order[i]) by {
        assert(order.contains(order[i]));
        assert(coords.dom().contains(order[i]));
    }
    assert(grown.map_values(g) =~= order.map_values(f).push(g(d)));
    law_joined(order.map_values(f), g(d), sep);
    assert(order.map_values(f).push(g(d)) =~= seq![g(d)] || order.len() > 0);
}

/// The canonical key of an address is built dimension by dimension in the order of their
/// names: each adds itself, an equals sign and its coordinate, behind the unit separator
/// unless it is the first.
pub proof fn law_canonical_key(coords: CoordsView, d: Text, v: Text)
    requires
        coords.dom().finite(),
        forall|x: Text| #[trigger] coords.contains_key(x) ==> text_lt(x, d),
    ensures
        canonical_key(Map::empty()).len() == 0,
        canonical_key(coords.insert(d, v)) == (if coords == Map::<Text, Text>::empty() {
            d + "="@ + v
        } else {
            canonical_key(coords) + "\u{1f}"@ + d + "="@ + v
        }),
{
    lemma_not_below_itself(coords, d);
    let grown = coords.insert(d, v);
    let f = |x: Text| x + "="@ + coords[x];
    let g = |x: Text| x + "="@ + grown[x];
    assert(grown.dom() =~= coords.dom().insert(d));
    lemma_join_grown(coords, d, f, g, "\u{1f}"@);
    lemma_nothing_ordered();
    assert(canonical_key(coords) + "\u{1f}"@ + (d + "="@ + v) =~= canonical_key(coords) + "\u{1f}"@
        + d + "="@ + v);
}

proof fn lemma_nothing_ordered()
    ensures
        key_order(Map::<Text, Text>::empty().dom()) == Seq::<Text>::empty(),
{
    let nothing = Map::<Text, Text>::empty().dom();
    lemma_key_order_lists(nothing);
    let order = key_order(nothing);
    if order.len() > 0 {
        assert(order.contains(order[0]));
        assert(nothing.contains(order[0]));
    }
    assert(order =~= Seq::<Text>::empty());
}

proof fn lemma_not_below_itself(coords: CoordsView, d: Text)
    requires
        forall|x: Text| #[trigger] coords.contains_key(x) ==> text_lt(x, d),
    ensures
        !coords.contains_key(d),
{
    crate::text::lemma_text_lt_irreflexive(d);
}

/// The JSON of an address is built dimension by dimension in the order of their names: each
/// adds a member with its coordinate, behind a comma unless it is the first.
pub proof fn law_coords_json(coords: CoordsView, d: Text, v: Text)
    requires
        coords.dom().finite(),
        forall|x: Text| #[trigger] coords.contains_key(x) ==> text_lt(x, d),
    ensures
        coords_json(Map::empty()) == "{"@ + "}"@,
        coords_json(coords.insert(d, v)) == coords_json(coords).drop_last() + (if coords
            == Map::<Text, Text>::empty() {
            Seq::empty()
        } else {
            ","@
        }) + quoted(d) + ":"@ + quoted(v) + "}"@,
{
    reveal_strlit("{");
    reveal_strlit("}");
    lemma_not_below_itself(coords, d);
    let grown = coords.insert(d, v);
    let f = |x: Text| quoted(x) + ":"@ + quoted(coords[x]);
    let g = |x: Text| quoted(x) + ":"@ + quoted(grown[x]);
    assert(grown.dom() =~= coords.dom().insert(d));
    lemma_join_grown(coords, d, f, g, ","@);
    lemma_nothing_ordered();
    let body = join(key_order(coords.dom()).map_values(f), ","@);
    assert(coords_json(coords).drop_last() =~= "{"@ + body);
    if coords == Map::<Text, Text>::empty() {
        assert(body.len() == 0);
    }
    assert(coords_json(grown) =~= coords_json(coords).drop_last() + (if coords
        == Map::<Text, Text>::empty() {
        Seq::empty()
    } else {
        ","@
    }) + quoted(d) + ":"@ + quoted(v) + "}"@);
    assert(coords_json(Map::empty()) =~= "{"@ + "}"@);
}

/// An address is shown dimension by dimension in the order of their names, each as `Debug`
/// writes it, with its coordinate behind a colon.
pub proof fn law_shown_coords(coords: CoordsView, d: Text, v: Text)
    requires
        coords.dom().finite(),
        forall|x: Text| #[trigger] coords.contains_key(x) ==> text_lt(x, d),
    ensures
        shown_coords(Map::empty()) == "{"@ + "}"@,
        shown_coords(coords.insert(d, v)) == shown_coords(coords).drop_last() + (if coords
            == Map::<Text, Text>::empty() {
            Seq::empty()
        } else {
            ", "@
        }) + debug_quoted(d) + ": "@ + debug_quoted(v) + "}"@,
{
    reveal_strlit("{");
    reveal_strlit("}");
    lemma_not_below_itself(coords, d);
    let grown = coords.insert(d, v);
    let f = |x: Text| debug_quoted(x) + ": "@ + debug_quoted(coords[x]);
    let g = |x: Text| debug_quoted(x) + ": "@ + debug_quoted(grown[x]);
    assert(grown.dom() =~= coords.dom().insert(d));
    lemma_join_grown(coords, d, f, g, ", "@);
    lemma_nothing_ordered();
    let body = join(key_order(coords.dom()).map_values(f), ", "@);
    assert(shown_coords(coords).drop_last() =~= "{"@ + body);
    if coords == Map::<Text, Text>::empty() {
        assert(body.len() == 0);
    }
    assert(shown_coords(grown) =~= shown_coords(coords).drop_last() + (if coords
        == Map::<Text, Text>::empty() {
        Seq::empty()
    } else {
        ", "@
    }) + debug_quoted(d) + ": "@ + debug_quoted(v) + "}"@);
    assert(shown_coords(Map::empty()) =~= "{"@ + "}"@);
}

/// The JSON of a value as it is stored and hashed: tagged on its kind, with what it holds.
pub proof fn law_value_json(text: Text, flag: bool, ms: i64, r: RefView)
    ensures
        value_json(ValueView::Text { text }) == "{\"kind\":\"text\",\"text\":"@ + quoted(text)
            + "}"@,
        value_json(ValueView::Number { number: text }) == "{\"kind\":\"number\",\"number\":"@ + text
            + "}"@,
        value_json(ValueView::Bool { bool: true }) == "{\"kind\":\"bool\",\"bool\":"@ + "true"@
            + "}"@,
        value_json(ValueView::Bool { bool: false }) == "{\"kind\":\"bool\",\"bool\":"@ + "false"@
            + "}"@,
        value_json(ValueView::Timestamp { ms }) == "{\"kind\":\"timestamp\",\"ms\":"@
            + signed_decimal(ms as int) + "}"@,
        value_json(ValueView::Json { json: text }) == "{\"kind\":\"json\",\"json\":"@ + text
            + "}"@,
        value_json(ValueView::Ref { r }) == "{\"kind\":\"ref\",\"r\":"@ + ("{\"scheme\":"@ + quoted(
            r.scheme,
        ) + ",\"address\":"@ + quoted(r.address) + (match r.content_hint {
            Some(h) => ",\""@ + "content_hint"@ + "\":"@ + quoted(h),
            None => Seq::empty(),
        }) + (match r.snapshot_cid {
            Some(c) => ",\""@ + "snapshot_cid"@ + "\":"@ + quoted(c),
            None => Seq::empty(),
        }) + "}"@) + "}"@,
{
}

/// The JSON of a value inside a request to another service holds what the stored one holds,
/// with the members of every object in the order of their names.
pub proof fn law_value_payload(text: Text, ms: i64, r: RefView)
    ensures
        value_payload(ValueView::Text { text }) == value_json(ValueView::Text { text }),
        value_payload(ValueView::Number { number: text }) == value_json(
            ValueView::Number { number: text },
        ),
        value_payload(ValueView::Timestamp { ms }) == value_json(ValueView::Timestamp { ms }),
        value_payload(ValueView::Bool { bool: true }) == "{\"bool\":"@ + "true"@
            + ",\"kind\":\"bool\"}"@,
        value_payload(ValueView::Bool { bool: false }) == "{\"bool\":"@ + "false"@
            + ",\"kind\":\"bool\"}"@,
        value_payload(ValueView::Json { json: text }) == "{\"json\":"@ + text
            + ",\"kind\":\"json\"}"@,
        value_payload(ValueView::Ref { r }) == "{\"kind\":\"ref\",\"r\":"@ + ("{\"address\":"@
            + quoted(r.address) + (match r.content_hint {
            Some(h) => ",\""@ + "content_hint"@ + "\":"@ + quoted(h),
            None => Seq::empty(),
        }) + ",\"scheme\":"@ + quoted(r.scheme) + (match r.snapshot_cid {
            Some(c) => ",\""@ + "snapshot_cid"@ + "\":"@ + quoted(c),
            None => Seq::empty(),
        }) + "}"@) + "}"@,
{
}

/// A vector is written component by component in its order: stored by the short texts, and in
/// a request to another service by the wide ones.
pub proof fn law_vector_json(vector: Seq<ComponentView>, c: ComponentView)
    ensures
        ({
            let grown = ValueView::Vector { vector: vector.push(c) };
            let v = ValueView::Vector { vector };
            let cut = |t: Text| t.take(t.len() - 2);
            let comma = if vector.len() == 0 {
                Seq::empty()
            } else {
                ","@
            };
            let nothing = ValueView::Vector { vector: Seq::empty() };
            &&& value_json(nothing) == "{\"kind\":\"vector\",\"vector\":["@ + "]}"@
            &&& value_payload(nothing) == "{\"kind\":\"vector\",\"vector\":["@ + "]}"@
            &&& value_json(grown) == cut(value_json(v)) + comma + c.text + "]}"@
            &&& value_payload(grown) == cut(value_payload(v)) + comma + c.wide + "]}"@
        }),
{
    reveal_strlit("]}");
    let short = vector.map_values(|c: ComponentView| c.text);
    let wide = vector.map_values(|c: ComponentView| c.wide);
    let head = "{\"kind\":\"vector\",\"vector\":["@;
    assert(vector.push(c).map_values(|c: ComponentView| c.text) =~= short.push(c.text));
    assert(vector.push(c).map_values(|c: ComponentView| c.wide) =~= wide.push(c.wide));
    law_joined(short, c.text, ","@);
    law_joined(wide, c.wide, ","@);
    let v = ValueView::Vector { vector };
    let grown = ValueView::Vector { vector: vector.push(c) };
    let nothing = ValueView::Vector { vector: Seq::empty() };
    let comma = if vector.len() == 0 {
        Seq::empty()
    } else {
        ","@
    };
    assert(Seq::<ComponentView>::empty().map_values(|c: ComponentView| c.text) =~= Seq::<
        Text,
    >::empty());
    assert(Seq::<ComponentView>::empty().map_values(|c: ComponentView| c.wide) =~= Seq::<
        Text,
    >::empty());
    assert(value_json(nothing) =~= head + "]}"@);
    assert(value_payload(nothing) =~= head + "]}"@);
    assert(value_json(v).take(value_json(v).len() - 2) =~= head + join(short, ","@));
    assert(value_payload(v).take(value_payload(v).len() - 2) =~= head + join(wide, ","@));
    if vector.len() == 0 {
        assert(short.push(c.text) =~= seq![c.text]);
        assert(wide.push(c.wide) =~= seq![c.wide]);
        assert(join(short, ","@) =~= Seq::<char>::empty());
        assert(join(wide, ","@) =~= Seq::<char>::empty());
    }
    assert(value_json(grown) =~= value_json(v).take(value_json(v).len() - 2) + comma + c.text
        + "]}"@);
    assert(value_payload(grown) =~= value_payload(v).take(value_payload(v).len() - 2) + comma
        + c.wide + "]}"@);
}

/// What a converter is sent for an item: the op, the parameters or `null`, the target plane and
/// the value.
pub proof fn law_convert_request(item: WorkItemView)
    ensures
        convert_request_json(item) == "{\"op\":\"convert\",\"params\":"@ + (match item.params {
            Some(p) => p,
            None => "null"@,
        }) + ",\"target\":"@ + quoted(item.target_representation) + ",\"value\":"@ + value_payload(
            item.value,
        ) + "}"@,
{
}

/// What the analysis service is sent: the op with the values, the criteria, the policy or the
/// labels that it is about.
pub proof fn law_questions(a: ValueView, b: ValueView, text: Text)
    ensures
        question_json(AiRequestView::Compare { a, b, criteria: text }) == "{\"a\":"@
            + value_payload(a) + ",\"b\":"@ + value_payload(b) + ",\"criteria\":"@ + quoted(text)
            + ",\"op\":\"compare\"}"@,
        question_json(AiRequestView::Check { value: a, policy: text })
            == "{\"op\":\"check\",\"policy\":"@ + quoted(text) + ",\"value\":"@ + value_payload(a)
            + "}"@,
        question_json(AiRequestView::Classify { value: a, labels: text }) == "{\"labels\":"@ + text
            + ",\"op\":\"classify\",\"value\":"@ + value_payload(a) + "}"@,
{
}

/// To summarize, the analysis service is sent every cell in turn, with its address and its
/// value.
pub proof fn law_summary_question(cells: Seq<SliceCellView>, c: SliceCellView)
    ensures
        ({
            let end = "],\"op\":\"summarize\"}"@;
            let sent = |cells: Seq<SliceCellView>|
                question_json(AiRequestView::Summarize { cells });
            let comma = if cells.len() == 0 {
                Seq::empty()
            } else {
                ","@
            };
            &&& sent(Seq::empty()) == "{\"cells\":["@ + end
            &&& sent(cells.push(c)) == sent(cells).take(sent(cells).len() - end.len()) + comma
                + "{\"coords\":"@ + coords_json(c.coords) + ",\"value\":"@ + value_payload(c.value)
                + "}"@ + end
        }),
{
    let end = "],\"op\":\"summarize\"}"@;
    let head = "{\"cells\":["@;
    let spell = |c: SliceCellView| crate::service::slice_cell_json(c);
    let parts = cells.map_values(spell);
    let part = "{\"coords\":"@ + coords_json(c.coords) + ",\"value\":"@ + value_payload(c.value)
        + "}"@;
    assert(cells.push(c).map_values(spell) =~= parts.push(part));
    law_joined(parts, part, ","@);
    let sent = |cells: Seq<SliceCellView>| question_json(AiRequestView::Summarize { cells });
    let comma = if cells.len() == 0 {
        Seq::empty()
    } else {
        ","@
    };
    assert(Seq::<SliceCellView>::empty().map_values(spell) =~= Seq::<Text>::empty());
    assert(sent(Seq::empty()) =~= head + end);
    assert(sent(cells).take(sent(cells).len() - end.len()) =~= head + join(parts, ","@));
    if cells.len() == 0 {
        assert(parts.push(part) =~= seq![part]);
        assert(join(parts, ","@) =~= Seq::<char>::empty());
    }
    assert(sent(cells.push(c)) =~= sent(cells).take(sent(cells).len() - end.len()) + comma
        + "{\"coords\":"@ + coords_json(c.coords) + ",\"value\":"@ + value_payload(c.value) + "}"@
        + end);
}

/// A reply that is not JSON is no answer; one with an error is a refusal, whatever else it
/// holds; otherwise what it holds is the answer, and must be there.
pub proof fn law_replies_judged(error: Text, answer: Text, any: Option<Text>)
    ensures
        converter_reply(false, any, any) == Err::<Text, Text>("undecodable converter reply"@),
        converter_reply(true, Some(error), any) == Err::<Text, Text>(
            "converter refused: "@ + error,
        ),
        converter_reply(true, None, Some(answer)) == Ok::<Text, Text>(answer),
        converter_reply(true, None, None) == Err::<Text, Text>(
            "converter reply lacks result.value"@,
        ),
        analysis_reply(false, any, any) == Err::<Text, Text>("undecodable grid.ai reply"@),
        analysis_reply(true, Some(error), any) == Err::<Text, Text>("grid.ai refused: "@ + error),
        analysis_reply(true, None, Some(answer)) == Ok::<Text, Text>(answer),
        analysis_reply(true, None, None) == Err::<Text, Text>("grid.ai reply lacks result"@),
{
}

/// A reply is judged by what its bytes hold: whether they are JSON, the string under `error`,
/// and the answer, which a converter puts under `result.value` and the analysis service under
/// `result`.
pub proof fn law_replies_read(raw: Seq<u8>)
    ensures
        ({
            let error = match json_document(raw) {
                Some(reply) => match json_member(reply, "error"@) {
                    Some(member) => json_string(member),
                    None => None,
                },
                None => None,
            };
            let converted = convert_answer(raw);
            let analyzed = analysis_answer(raw);
            &&& json_document(raw) is None ==> converted == Err::<Text, Text>(
                "undecodable converter reply"@,
            ) && analyzed == Err::<Text, Text>("undecodable grid.ai reply"@)
            &&& error is Some ==> converted == Err::<Text, Text>("converter refused: "@ + error->0)
                && analyzed == Err::<Text, Text>("grid.ai refused: "@ + error->0)
            &&& json_document(raw) is Some && error is None ==> {
                &&& converted == (match json_at(raw, "/result/value"@) {
                    Some(value) => Ok::<Text, Text>(value),
                    None => Err("converter reply lacks result.value"@),
                })
                &&& analyzed == (match json_at(raw, "/result"@) {
                    Some(result) => Ok::<Text, Text>(result),
                    None => Err("grid.ai reply lacks result"@),
                })
            }
        }),
{
}

/// A string member is what the member under the key spells, where it is there and a string;
/// and parameters are what stands at their path, with what stands below it under `labels`.
pub proof fn law_members_read(text: Text, key: Text, raw: Seq<u8>, pointer: Text)
    ensures
        json_member(text, key) is None ==> member_string(text, key) is None,
        json_member(text, key) matches Some(member) ==> member_string(text, key) == json_string(
            member,
        ),
        params_at(raw, pointer) is Some <==> json_at(raw, pointer) is Some,
        params_at(raw, pointer) matches Some(p) ==> Some(p.json) == json_at(raw, pointer)
            && p.labels == json_at(raw, pointer + "/labels"@),
{
}

/// A node id is shown by its first eight bytes, or by all of them where there are fewer; it
/// can be where those end between two characters.
pub proof fn law_shown_id(id: Text)
    ensures
        ({
            let bytes = encode_utf8(id);
            let n = if bytes.len() < 8 {
                bytes.len() as int
            } else {
                8
            };
            &&& can_shorten(id) <==> is_char_boundary(bytes, n)
            &&& can_shorten(id) ==> encode_utf8(shortened(id)) == bytes.take(n)
        }),
{
    let bytes = encode_utf8(id);
    let n = if bytes.len() < 8 {
        bytes.len() as int
    } else {
        8
    };
    if can_shorten(id) {
        vstd::utf8::encode_utf8_valid_utf8(id);
        assert(bytes.take(n) =~= bytes.subrange(0, n));
        vstd::utf8::valid_utf8_split(bytes, n);
        decode_utf8_encode_utf8(bytes.take(n));
    }
}

} // verus!
