//! Memoization: what the key of a derived cell depends on, and when a derivation is
//! due again.

use vstd::prelude::*;
use vstd::utf8::{encode_utf8, encode_utf8_decode_utf8};

use crate::addressing::{
    free_of, law_planes_apart, lemma_cancel_prefix, lemma_cancel_suffix, lemma_join_injective,
};
use crate::convergence::writes;
use crate::digest::{hex_text, sha256};
use crate::encode::{optional_member, ref_json, texts, value_json};
use crate::json::{escaped, escaped_char, hex_digit, printable, quoted};
use crate::materialize::{
    all_pending, all_settled, all_targets, selected_rules, derived_coords, derived_key, input_text,
    memo_key, pending, settled, source_slice, sources, up_to_date, work_for, WorkItemView,
};
use crate::proto::{machine_after, outcome, ResponseView};
use crate::reading::{cell_in_place, law_provenance, law_slice_members, sound};
use crate::service::derived_request;
use crate::space::{
    applied, canonical_key, CellView, DerivationView, MachineView, RefView, RuleView, SpaceView,
    StampedView, ValueView, REPRESENTATION,
};
use crate::text::{decimal, digit, join, signed_decimal, Text};

verus! {

proof fn lemma_escape_first(a: char, b: char, x: Text, y: Text)
    requires
        escaped_char(a) + x == escaped_char(b) + y,
    ensures
        a == b,
        x == y,
{
    let l = escaped_char(a) + x;
    let r = escaped_char(b) + y;
    assert(l[0] == escaped_char(a)[0]);
    assert(r[0] == escaped_char(b)[0]);
    if escaped_char(a).len() > 1 {
        assert(l[1] == escaped_char(a)[1]);
    }
    if escaped_char(b).len() > 1 {
        assert(r[1] == escaped_char(b)[1]);
    }
    if escaped_char(a).len() > 2 && escaped_char(b).len() > 2 {
        assert(l[4] == escaped_char(a)[4]);
        assert(l[5] == escaped_char(a)[5]);
        assert(r[4] == escaped_char(b)[4]);
        assert(r[5] == escaped_char(b)[5]);
        assert(a as int == 16 * (a as int / 16) + a as int % 16);
        assert(b as int == 16 * (b as int / 16) + b as int % 16);
    }
    assert(a == b);
    lemma_cancel_prefix(escaped_char(a), x, y);
}

proof fn lemma_escaped_prefix(a: Text, b: Text, x: Text, y: Text)
    requires
        escaped(a) + seq!['"'] + x == escaped(b) + seq!['"'] + y,
    ensures
        a == b,
        x == y,
    decreases a.len(),
{
    let l = escaped(a) + seq!['"'] + x;
    let r = escaped(b) + seq!['"'] + y;
    if a.len() == 0 && b.len() == 0 {
        assert(a =~= b);
        assert(x =~= l.skip(1));
        assert(y =~= r.skip(1));
    } else if a.len() == 0 {
        assert(l[0] == '"');
        assert(r[0] == escaped_char(b[0])[0]);
    } else if b.len() == 0 {
        assert(r[0] == '"');
        assert(l[0] == escaped_char(a[0])[0]);
    } else {
        let xs = escaped(a.drop_first()) + seq!['"'] + x;
        let ys = escaped(b.drop_first()) + seq!['"'] + y;
        assert(l =~= escaped_char(a[0]) + xs);
        assert(r =~= escaped_char(b[0]) + ys);
        lemma_escape_first(a[0], b[0], xs, ys);
        lemma_escaped_prefix(a.drop_first(), b.drop_first(), x, y);
        assert(a =~= seq![a[0]] + a.drop_first());
        assert(b =~= seq![b[0]] + b.drop_first());
    }
}

/// A JSON string tells where it ends and what it spells.
pub proof fn lemma_quoted_prefix(a: Text, b: Text, x: Text, y: Text)
    requires
        quoted(a) + x == quoted(b) + y,
    ensures
        a == b,
        x == y,
{
    let l = escaped(a) + seq!['"'] + x;
    let r = escaped(b) + seq!['"'] + y;
    assert(quoted(a) + x =~= seq!['"'] + l);
    assert(quoted(b) + y =~= seq!['"'] + r);
    lemma_cancel_prefix(seq!['"'], l, r);
    lemma_escaped_prefix(a, b, x, y);
}

proof fn lemma_quoted_injective(a: Text, b: Text)
    requires
        quoted(a) == quoted(b),
    ensures
        a == b,
{
    lemma_quoted_prefix(a, b, Seq::empty(), Seq::empty());
}

proof fn lemma_decimal_len(n: nat)
    ensures
        decimal(n).len() >= 1,
        n < 10 <==> decimal(n).len() == 1,
        forall|i: int| 0 <= i < decimal(n).len() ==> 48 <= (#[trigger] decimal(n)[i]) as int <= 57,
    decreases n,
{
    if n >= 10 {
        lemma_decimal_len(n / 10);
    }
}

proof fn lemma_decimal_injective(a: nat, b: nat)
    requires
        decimal(a) == decimal(b),
    ensures
        a == b,
    decreases a,
{
    lemma_decimal_len(a);
    lemma_decimal_len(b);
    if a < 10 {
        assert(decimal(a)[0] == digit(a));
        assert(decimal(b)[0] == digit(b));
    } else {
        let ha = decimal(a / 10);
        let hb = decimal(b / 10);
        assert(decimal(a).drop_last() =~= ha);
        assert(decimal(b).drop_last() =~= hb);
        assert(decimal(a).last() == digit(a % 10));
        assert(decimal(b).last() == digit(b % 10));
        lemma_decimal_injective(a / 10, b / 10);
    }
}

proof fn lemma_signed_injective(a: int, b: int)
    requires
        signed_decimal(a) == signed_decimal(b),
    ensures
        a == b,
{
    let pa = if a < 0 {
        (-a) as nat
    } else {
        a as nat
    };
    let pb = if b < 0 {
        (-b) as nat
    } else {
        b as nat
    };
    lemma_decimal_len(pa);
    lemma_decimal_len(pb);
    if a < 0 && b < 0 {
        lemma_cancel_prefix(seq!['-'], decimal(pa), decimal(pb));
        lemma_decimal_injective(pa, pb);
    } else if a < 0 {
        assert(signed_decimal(a)[0] == '-');
        assert(decimal(pb)[0] != '-');
    } else if b < 0 {
        assert(signed_decimal(b)[0] == '-');
        assert(decimal(pa)[0] != '-');
    } else {
        lemma_decimal_injective(pa, pb);
    }
}

/// A value whose vector components are texts of numbers: none is empty or holds a
/// comma.
pub open spec fn well_spelled(v: ValueView) -> bool {
    v matches ValueView::Vector { vector } ==> forall|i: int|
        0 <= i < vector.len() ==> (#[trigger] vector[i]).text.len() > 0 && free_of(
            vector[i].text,
            ',',
        )
}

/// Two values in which one number has one spelling: vector components with the same text
/// have the same text as 64-bit floats.
pub open spec fn spelled_alike(v: ValueView, w: ValueView) -> bool {
    v is Vector && w is Vector ==> forall|i: int, j: int|
        0 <= i < v->vector.len() && 0 <= j < w->vector.len() && (#[trigger] v->vector[i]).text == (
        #[trigger] w->vector[j]).text ==> v->vector[i].wide == w->vector[j].wide
}

proof fn lemma_cancel_frame(p: Text, a: Text, b: Text, s: Text)
    requires
        p + a + s == p + b + s,
    ensures
        a == b,
{
    lemma_cancel_suffix(p + a, p + b, s);
    lemma_cancel_prefix(p, a, b);
}

/// The tail of an object does not go on with a member whose name starts with `c`.
spec fn not_member(tail: Text, c: char) -> bool {
    tail.len() <= 2 || tail[2] != c
}

proof fn lemma_optional_member(name: Text, a: Option<Text>, b: Option<Text>, x: Text, y: Text)
    requires
        name.len() > 0,
        not_member(x, name[0]),
        not_member(y, name[0]),
        optional_member(name, a) + x == optional_member(name, b) + y,
    ensures
        a == b,
        x == y,
{
    let head = ",\""@ + name + "\":"@;
    reveal_strlit(",\"");
    assert(head[2] == name[0]);
    if let Some(u) = a {
        assert(optional_member(name, a) + x =~= head + (quoted(u) + x));
    } else {
        assert(optional_member(name, a) + x =~= x);
    }
    if let Some(v) = b {
        assert(optional_member(name, b) + y =~= head + (quoted(v) + y));
    } else {
        assert(optional_member(name, b) + y =~= y);
    }
    if a is Some && b is Some {
        lemma_cancel_prefix(head, quoted(a->0) + x, quoted(b->0) + y);
        lemma_quoted_prefix(a->0, b->0, x, y);
    } else if a is Some {
        assert((head + (quoted(a->0) + x))[2] == name[0]);
    } else if b is Some {
        assert((head + (quoted(b->0) + y))[2] == name[0]);
    }
}

spec fn snapshot_tail(r: RefView) -> Text {
    optional_member("snapshot_cid"@, r.snapshot_cid) + "}"@
}

spec fn hint_tail(r: RefView) -> Text {
    optional_member("content_hint"@, r.content_hint) + snapshot_tail(r)
}

proof fn lemma_snapshot_tail(r: RefView)
    ensures
        not_member(snapshot_tail(r), 'c'),
        not_member("}"@, 's'),
{
    reveal_strlit("}");
    reveal_strlit(",\"");
    reveal_strlit("snapshot_cid");
    if let Some(cid) = r.snapshot_cid {
        let head = ",\""@ + "snapshot_cid"@ + "\":"@;
        assert(snapshot_tail(r) =~= head + (quoted(cid) + "}"@));
        assert(head[2] == 's');
    } else {
        assert(snapshot_tail(r) =~= "}"@);
    }
}

proof fn lemma_tails_injective(a: RefView, b: RefView)
    requires
        hint_tail(a) == hint_tail(b),
    ensures
        a.content_hint == b.content_hint,
        a.snapshot_cid == b.snapshot_cid,
{
    reveal_strlit("content_hint");
    reveal_strlit("snapshot_cid");
    lemma_snapshot_tail(a);
    lemma_snapshot_tail(b);
    lemma_optional_member(
        "content_hint"@,
        a.content_hint,
        b.content_hint,
        snapshot_tail(a),
        snapshot_tail(b),
    );
    lemma_optional_member("snapshot_cid"@, a.snapshot_cid, b.snapshot_cid, "}"@, "}"@);
}

proof fn lemma_ref_split(r: RefView)
    ensures
        ref_json(r) == "{\"scheme\":"@ + (quoted(r.scheme) + (",\"address\":"@ + (quoted(
            r.address,
        ) + hint_tail(r)))),
{
    assert(ref_json(r) =~= "{\"scheme\":"@ + (quoted(r.scheme) + (",\"address\":"@ + (quoted(
        r.address,
    ) + hint_tail(r)))));
}

proof fn lemma_ref_injective(a: RefView, b: RefView)
    requires
        ref_json(a) == ref_json(b),
    ensures
        a == b,
{
    lemma_ref_split(a);
    lemma_ref_split(b);
    let past_a = quoted(a.address) + hint_tail(a);
    let past_b = quoted(b.address) + hint_tail(b);
    let from_a = ",\"address\":"@ + past_a;
    let from_b = ",\"address\":"@ + past_b;
    lemma_cancel_prefix(
        "{\"scheme\":"@,
        quoted(a.scheme) + from_a,
        quoted(b.scheme) + from_b,
    );
    lemma_quoted_prefix(a.scheme, b.scheme, from_a, from_b);
    lemma_cancel_prefix(",\"address\":"@, past_a, past_b);
    lemma_quoted_prefix(a.address, b.address, hint_tail(a), hint_tail(b));
    lemma_tails_injective(a, b);
}

/// The two characters by which the JSON of a value tells its kind.
spec fn kind_mark(v: ValueView) -> (char, char) {
    match v {
        ValueView::Text { .. } => ('t', 'e'),
        ValueView::Number { .. } => ('n', 'u'),
        ValueView::Bool { .. } => ('b', 'o'),
        ValueView::Timestamp { .. } => ('t', 'i'),
        ValueView::Json { .. } => ('j', 's'),
        ValueView::Vector { .. } => ('v', 'e'),
        ValueView::Ref { .. } => ('r', 'e'),
    }
}

proof fn lemma_kind_mark(v: ValueView)
    ensures
        value_json(v).len() > 10,
        value_json(v)[9] == kind_mark(v).0,
        value_json(v)[10] == kind_mark(v).1,
{
    reveal_strlit("{\"kind\":\"text\",\"text\":");
    reveal_strlit("{\"kind\":\"number\",\"number\":");
    reveal_strlit("{\"kind\":\"bool\",\"bool\":");
    reveal_strlit("{\"kind\":\"timestamp\",\"ms\":");
    reveal_strlit("{\"kind\":\"json\",\"json\":");
    reveal_strlit("{\"kind\":\"vector\",\"vector\":[");
    reveal_strlit("{\"kind\":\"ref\",\"r\":");
}

/// Two different values are written differently.
pub proof fn law_value_json_injective(a: ValueView, b: ValueView)
    requires
        well_spelled(a),
        well_spelled(b),
        spelled_alike(a, b),
        value_json(a) == value_json(b),
    ensures
        a == b,
{
    lemma_kind_mark(a);
    lemma_kind_mark(b);
    match a {
        ValueView::Text { text } => {
            let other = b->Text_text;
            lemma_cancel_frame(
                "{\"kind\":\"text\",\"text\":"@,
                quoted(text),
                quoted(other),
                "}"@,
            );
            lemma_quoted_injective(text, other);
        },
        ValueView::Number { number } => {
            lemma_cancel_frame("{\"kind\":\"number\",\"number\":"@, number, b->number, "}"@);
        },
        ValueView::Bool { bool } => {
            let other = b->bool;
            reveal_strlit("true");
            reveal_strlit("false");
            lemma_cancel_frame(
                "{\"kind\":\"bool\",\"bool\":"@,
                if bool {
                    "true"@
                } else {
                    "false"@
                },
                if other {
                    "true"@
                } else {
                    "false"@
                },
                "}"@,
            );
            assert("true"@.len() != "false"@.len());
        },
        ValueView::Timestamp { ms } => {
            let other = b->ms;
            lemma_cancel_frame(
                "{\"kind\":\"timestamp\",\"ms\":"@,
                signed_decimal(ms as int),
                signed_decimal(other as int),
                "}"@,
            );
            lemma_signed_injective(ms as int, other as int);
        },
        ValueView::Json { json } => {
            lemma_cancel_frame("{\"kind\":\"json\",\"json\":"@, json, b->json, "}"@);
        },
        ValueView::Vector { vector } => {
            let other = b->vector;
            lemma_cancel_frame(
                "{\"kind\":\"vector\",\"vector\":["@,
                join(texts(vector), ","@),
                join(texts(other), ","@),
                "]}"@,
            );
            reveal_strlit(",");
            assert(","@ =~= seq![',']);
            assert forall|i: int| 0 <= i < vector.len() implies #[trigger] texts(vector)[i]
                == vector[i].text by {}
            assert forall|i: int| 0 <= i < other.len() implies #[trigger] texts(other)[i]
                == other[i].text by {}
            lemma_join_injective(texts(vector), texts(other), ',');
            assert(vector.len() == texts(vector).len() && other.len() == texts(other).len());
            assert forall|i: int| 0 <= i < vector.len() implies vector[i] == other[i] by {
                assert(texts(vector)[i] == texts(other)[i]);
                assert(vector[i].text == other[i].text);
            }
            assert(vector =~= other);
        },
        ValueView::Ref { r } => {
            let other = b->r;
            lemma_cancel_frame(
                "{\"kind\":\"ref\",\"r\":"@,
                ref_json(r),
                ref_json(other),
                "}"@,
            );
            lemma_ref_injective(r, other);
        },
    }
}

proof fn lemma_printable_concat(a: Text, b: Text)
    requires
        printable(a),
        printable(b),
    ensures
        printable(a + b),
{
    let s = a + b;
    assert forall|i: int| 0 <= i < s.len() implies 32 <= (#[trigger] s[i]) as int by {
        if i < a.len() {
            assert(s[i] == a[i]);
        } else {
            assert(s[i] == b[i - a.len()]);
        }
    }
}

proof fn lemma_escaped_char_printable(c: char)
    ensures
        printable(escaped_char(c)),
{
    let code = c as int;
    if 0 <= code < 32 {
        assert(0 <= code / 16 < 16 && 0 <= code % 16 < 16);
    }
}

proof fn lemma_escaped_printable(s: Text)
    ensures
        printable(escaped(s)),
    decreases s.len(),
{
    if s.len() > 0 {
        lemma_escaped_printable(s.drop_first());
        lemma_escaped_char_printable(s[0]);
        lemma_printable_concat(escaped_char(s[0]), escaped(s.drop_first()));
    }
}

proof fn lemma_quoted_printable(s: Text)
    ensures
        printable(quoted(s)),
{
    lemma_escaped_printable(s);
    assert(printable(seq!['"']));
    lemma_printable_concat(seq!['"'], escaped(s));
    lemma_printable_concat(seq!['"'] + escaped(s), seq!['"']);
}

proof fn lemma_frame_printable(p: Text, s: Text, t: Text)
    requires
        printable(p),
        printable(s),
        printable(t),
    ensures
        printable(p + s + t),
{
    lemma_printable_concat(p, s);
    lemma_printable_concat(p + s, t);
}

proof fn lemma_join_printable(parts: Seq<Text>)
    requires
        forall|i: int| 0 <= i < parts.len() ==> printable(#[trigger] parts[i]),
    ensures
        printable(join(parts, ","@)),
    decreases parts.len(),
{
    if parts.len() > 1 {
        reveal_strlit(",");
        lemma_join_printable(parts.drop_last());
        lemma_frame_printable(join(parts.drop_last(), ","@), ","@, parts.last());
    }
}

proof fn lemma_optional_printable(name: Text, v: Option<Text>)
    requires
        printable(name),
    ensures
        printable(optional_member(name, v)),
{
    if let Some(t) = v {
        reveal_strlit(",\"");
        reveal_strlit("\":");
        lemma_frame_printable(",\""@, name, "\":"@);
        lemma_quoted_printable(t);
        lemma_printable_concat(",\""@ + name + "\":"@, quoted(t));
    }
}

proof fn lemma_ref_printable(r: RefView)
    ensures
        printable(ref_json(r)),
{
    reveal_strlit("{\"scheme\":");
    reveal_strlit(",\"address\":");
    reveal_strlit("content_hint");
    reveal_strlit("snapshot_cid");
    reveal_strlit("}");
    lemma_quoted_printable(r.scheme);
    lemma_quoted_printable(r.address);
    lemma_optional_printable("content_hint"@, r.content_hint);
    lemma_optional_printable("snapshot_cid"@, r.snapshot_cid);
    let a = "{\"scheme\":"@ + quoted(r.scheme);
    lemma_printable_concat("{\"scheme\":"@, quoted(r.scheme));
    lemma_frame_printable(a, ",\"address\":"@, quoted(r.address));
    let b = a + ",\"address\":"@ + quoted(r.address);
    lemma_frame_printable(
        b,
        optional_member("content_hint"@, r.content_hint),
        optional_member("snapshot_cid"@, r.snapshot_cid),
    );
    lemma_printable_concat(
        b + optional_member("content_hint"@, r.content_hint) + optional_member(
            "snapshot_cid"@,
            r.snapshot_cid,
        ),
        "}"@,
    );
}

/// A value whose JSON parts hold no control characters, as compact JSON never does.
pub open spec fn cleanly_spelled(v: ValueView) -> bool {
    match v {
        ValueView::Number { number } => printable(number),
        ValueView::Json { json } => printable(json),
        ValueView::Vector { vector } => forall|i: int|
            0 <= i < vector.len() ==> printable((#[trigger] vector[i]).text),
        _ => true,
    }
}

proof fn lemma_signed_printable(n: int)
    ensures
        printable(signed_decimal(n)),
{
    if n < 0 {
        lemma_decimal_len((-n) as nat);
        lemma_printable_concat(seq!['-'], decimal((-n) as nat));
    } else {
        lemma_decimal_len(n as nat);
    }
}

proof fn lemma_value_printable(v: ValueView)
    requires
        cleanly_spelled(v),
    ensures
        printable(value_json(v)),
{
    reveal_strlit("}");
    match v {
        ValueView::Text { text } => {
            reveal_strlit("{\"kind\":\"text\",\"text\":");
            lemma_quoted_printable(text);
            lemma_frame_printable("{\"kind\":\"text\",\"text\":"@, quoted(text), "}"@);
        },
        ValueView::Number { number } => {
            reveal_strlit("{\"kind\":\"number\",\"number\":");
            lemma_frame_printable("{\"kind\":\"number\",\"number\":"@, number, "}"@);
        },
        ValueView::Bool { bool } => {
            reveal_strlit("{\"kind\":\"bool\",\"bool\":");
            reveal_strlit("true");
            reveal_strlit("false");
            if bool {
                lemma_frame_printable("{\"kind\":\"bool\",\"bool\":"@, "true"@, "}"@);
            } else {
                lemma_frame_printable("{\"kind\":\"bool\",\"bool\":"@, "false"@, "}"@);
            }
        },
        ValueView::Timestamp { ms } => {
            reveal_strlit("{\"kind\":\"timestamp\",\"ms\":");
            lemma_signed_printable(ms as int);
            lemma_frame_printable(
                "{\"kind\":\"timestamp\",\"ms\":"@,
                signed_decimal(ms as int),
                "}"@,
            );
        },
        ValueView::Json { json } => {
            reveal_strlit("{\"kind\":\"json\",\"json\":");
            lemma_frame_printable("{\"kind\":\"json\",\"json\":"@, json, "}"@);
        },
        ValueView::Vector { vector } => {
            reveal_strlit("{\"kind\":\"vector\",\"vector\":[");
            reveal_strlit("]}");
            assert forall|i: int| 0 <= i < texts(vector).len() implies printable(
                #[trigger] texts(vector)[i],
            ) by {
                assert(texts(vector)[i] == vector[i].text);
            }
            lemma_join_printable(texts(vector));
            lemma_frame_printable(
                "{\"kind\":\"vector\",\"vector\":["@,
                join(texts(vector), ","@),
                "]}"@,
            );
        },
        ValueView::Ref { r } => {
            reveal_strlit("{\"kind\":\"ref\",\"r\":");
            lemma_ref_printable(r);
            lemma_frame_printable("{\"kind\":\"ref\",\"r\":"@, ref_json(r), "}"@);
        },
    }
}

/// The parameters as they stand in what is hashed.
pub open spec fn params_text(params: Option<Text>) -> Text {
    match params {
        Some(p) => p,
        None => Seq::empty(),
    }
}

/// Parameters as compact JSON: not empty, and without control characters.
pub open spec fn compact_params(params: Option<Text>) -> bool {
    params matches Some(p) ==> p.len() > 0 && printable(p)
}

/// What is hashed into a memoization key tells the value, the converter and the
/// parameters apart: two different inputs are never hashed from the same bytes.
pub proof fn law_inputs_told_apart(
    v: ValueView,
    converter: Text,
    params: Option<Text>,
    w: ValueView,
    other: Text,
    more: Option<Text>,
)
    requires
        well_spelled(v) && cleanly_spelled(v) && compact_params(params),
        well_spelled(w) && cleanly_spelled(w) && compact_params(more),
        spelled_alike(v, w),
        encode_utf8(input_text(v, converter, params)) == encode_utf8(input_text(w, other, more)),
    ensures
        v == w,
        converter == other,
        params == more,
{
    let a = input_text(v, converter, params);
    let b = input_text(w, other, more);
    encode_utf8_decode_utf8(a);
    encode_utf8_decode_utf8(b);
    assert(a == b);
    reveal_strlit("\u{1f}");
    let us = "\u{1f}"@;
    let va = value_json(v);
    let vb = value_json(w);
    let pa = params_text(params);
    let pb = params_text(more);
    lemma_value_printable(v);
    lemma_value_printable(w);
    let ra = converter + us + pa;
    let rb = other + us + pb;
    assert(a =~= va + us + ra);
    assert(b =~= vb + us + rb);
    assert(a[va.len() as int] == us[0]);
    assert(b[vb.len() as int] == us[0]);
    if va.len() < vb.len() {
        assert(b[va.len() as int] == vb[va.len() as int]);
    } else if vb.len() < va.len() {
        assert(a[vb.len() as int] == va[vb.len() as int]);
    }
    assert(va =~= a.take(va.len() as int));
    assert(vb =~= b.take(vb.len() as int));
    law_value_json_injective(v, w);
    lemma_cancel_prefix(va + us, ra, rb);
    let ca = converter.len();
    let cb = other.len();
    assert(ra[ca as int] == us[0]);
    assert(rb[cb as int] == us[0]);
    if ca < cb {
        assert(ra[cb as int] == pa[cb - ca - 1]);
    } else if cb < ca {
        assert(rb[ca as int] == pb[ca - cb - 1]);
    }
    assert(converter =~= ra.take(ca as int));
    assert(other =~= rb.take(cb as int));
    lemma_cancel_prefix(converter + us, pa, pb);
    if params is Some && more is None {
        assert(pa.len() > 0);
    }
    if params is None && more is Some {
        assert(pb.len() > 0);
    }
}

proof fn lemma_hex_injective(a: Seq<u8>, b: Seq<u8>)
    requires
        hex_text(a) == hex_text(b),
    ensures
        a == b,
    decreases a.len(),
{
    if a.len() == 0 {
        if b.len() > 0 {
            assert(hex_text(b).len() >= 2);
        }
        assert(a =~= b);
    } else if b.len() == 0 {
        assert(hex_text(a).len() >= 2);
    } else {
        let x = hex_text(a);
        let y = hex_text(b);
        assert(x[0] == hex_digit(a[0] as int / 16) && x[1] == hex_digit(a[0] as int % 16));
        assert(y[0] == hex_digit(b[0] as int / 16) && y[1] == hex_digit(b[0] as int % 16));
        assert(a[0] as int == 16 * (a[0] as int / 16) + a[0] as int % 16);
        assert(b[0] as int == 16 * (b[0] as int / 16) + b[0] as int % 16);
        assert(a[0] == b[0]);
        assert(hex_text(a.drop_first()) =~= x.skip(2));
        assert(hex_text(b.drop_first()) =~= y.skip(2));
        lemma_hex_injective(a.drop_first(), b.drop_first());
        assert(a =~= seq![a[0]] + a.drop_first());
        assert(b =~= seq![b[0]] + b.drop_first());
    }
}

/// Two different inputs share a memoization key only where SHA-256 gives two
/// different byte sequences the same digest.
pub proof fn law_key_sensitive(
    v: ValueView,
    converter: Text,
    params: Option<Text>,
    w: ValueView,
    other: Text,
    more: Option<Text>,
)
    requires
        well_spelled(v) && cleanly_spelled(v) && compact_params(params),
        well_spelled(w) && cleanly_spelled(w) && compact_params(more),
        spelled_alike(v, w),
        v != w || converter != other || params != more,
        memo_key(v, converter, params) == memo_key(w, other, more),
    ensures
        ({
            let a = encode_utf8(input_text(v, converter, params));
            let b = encode_utf8(input_text(w, other, more));
            a != b && sha256(a) == sha256(b)
        }),
{
    let a = encode_utf8(input_text(v, converter, params));
    let b = encode_utf8(input_text(w, other, more));
    if a == b {
        law_inputs_told_apart(v, converter, params, w, other, more);
    }
    lemma_hex_injective(sha256(a), sha256(b));
}

/// Every target of a rule is either due or up to date.
pub proof fn law_plan_accounts(m: MachineView, space: Text, rule: RuleView)
    ensures
        pending(m, space, rule).len() + settled(m, space, rule) == sources(m, space, rule).len(),
{
    lemma_filter_split(
        sources(m, space, rule),
        |c: CellView| !up_to_date(m.spaces[space], rule, c),
        |c: CellView| up_to_date(m.spaces[space], rule, c),
    );
}

/// Those that are due and those that are up to date are together all targets.
pub proof fn lemma_targets(m: MachineView, space: Text, rules: Seq<RuleView>)
    ensures
        all_pending(m, space, rules).len() + all_settled(m, space, rules) == all_targets(
            m,
            space,
            rules,
        ),
    decreases rules.len(),
{
    if rules.len() > 0 {
        lemma_targets(m, space, rules.drop_last());
        law_plan_accounts(m, space, rules.last());
    }
}

/// A plan leaves no target out: those that are due and those that are up to date are
/// together all targets of the selected rules.
pub proof fn law_plan_complete(m: MachineView, space: Text, rule: Option<Text>)
    ensures
        ({
            let rules = selected_rules(m, space, rule);
            all_pending(m, space, rules).len() + all_settled(m, space, rules) == all_targets(
                m,
                space,
                rules,
            )
        }),
{
    lemma_targets(m, space, selected_rules(m, space, rule));
}

proof fn lemma_filter_split<A>(s: Seq<A>, p: spec_fn(A) -> bool, q: spec_fn(A) -> bool)
    requires
        forall|x: A| #[trigger] p(x) == !q(x),
    ensures
        s.filter(p).len() + s.filter(q).len() == s.len(),
    decreases s.len(),
{
    reveal(Seq::filter);
    if s.len() > 0 {
        lemma_filter_split(s.drop_last(), p, q);
        assert(p(s.last()) == !q(s.last()));
    }
}

/// Whatever is planned comes from a live cell of the space that stands on the source
/// plane or on none: a cell on another plane is never a source.
pub proof fn law_sources_on_plane(m: MachineView, space: Text, rule: RuleView, w: WorkItemView)
    requires
        m.spaces.contains_key(space),
        m.spaces[space].cells.dom().finite(),
        pending(m, space, rule).contains(w),
    ensures
        exists|k: Text|
            ({
                let c = m.spaces[space].cells[k];
                &&& #[trigger] m.spaces[space].cells.contains_key(k)
                &&& w == work_for(rule, c)
                &&& c.value is Some
                &&& c.coords.contains_key(REPRESENTATION@) ==> c.coords[REPRESENTATION@]
                    == source_slice(rule)[REPRESENTATION@]
            }),
{
    let all = sources(m, space, rule);
    let due = |c: CellView| !up_to_date(m.spaces[space], rule, c);
    let i = choose|i: int|
        0 <= i < pending(m, space, rule).len() && pending(m, space, rule)[i] == w;
    let c = all.filter(due)[i];
    assert(all.filter(due).contains(c));
    all.lemma_filter_contains_rev(due, c);
    law_slice_members(m, space, source_slice(rule), c);
    let k = choose|k: Text| #[trigger]
        m.spaces[space].cells.contains_key(k) && m.spaces[space].cells[k] == c;
    assert(w == work_for(rule, c));
    assert(source_slice(rule).contains_key(REPRESENTATION@));
    assert(m.spaces[space].cells.contains_key(k));
}

/// Once what a rule derives from a cell is recorded with its key, the rule does not
/// ask for it again; and where the target is not the cell itself, the cell still
/// stands, a source as before.
pub proof fn law_memoized(
    m: MachineView,
    writer: Text,
    space: Text,
    rule: RuleView,
    cell: CellView,
    value: ValueView,
)
    requires
        sound(m),
        m.clock < u64::MAX,
        m.spaces.contains_key(space),
        sources(m, space, rule).contains(cell),
    ensures
        ({
            let h = outcome(m, writer, derived_request(space, work_for(rule, cell), value));
            let n = machine_after(m, h.op);
            &&& h.response == ResponseView::Done
            &&& n.spaces.contains_key(space)
            &&& up_to_date(n.spaces[space], rule, cell)
            &&& derived_coords(rule, cell) != cell.coords ==> sources(n, space, rule).contains(cell)
                && !pending(n, space, rule).contains(work_for(rule, cell))
        }),
{
    let item = work_for(rule, cell);
    let target = derived_coords(rule, cell);
    let req = derived_request(space, item, value);
    let h = outcome(m, writer, req);
    let n = machine_after(m, h.op);
    let derivation = DerivationView {
        rule_id: item.rule_id,
        converter: item.converter,
        input_key: item.input_key,
    };
    let s = m.spaces[space];
    law_slice_members(m, space, source_slice(rule), cell);
    let k = choose|k: Text| #[trigger] s.cells.contains_key(k) && s.cells[k] == cell;
    assert(cell_in_place(s, m.clock, k));
    assert(target.contains_key(REPRESENTATION@));
    assert(target != Map::<Text, Text>::empty());
    law_provenance(m, writer, space, target, value, derivation);
    crate::reading::law_sound_served(m, writer, req);
    if target != cell.coords {
        if cell.coords.contains_key(REPRESENTATION@) && cell.coords[REPRESENTATION@]
            == rule.target_representation {
            assert(target =~= cell.coords);
        }
        law_planes_apart(cell.coords, REPRESENTATION@, rule.target_representation);
        assert(n.spaces[space].cells.contains_key(k) && n.spaces[space].cells[k] == cell);
        law_slice_members(n, space, source_slice(rule), cell);
        if pending(n, space, rule).contains(item) {
            let all = sources(n, space, rule);
            let due = |c: CellView| !up_to_date(n.spaces[space], rule, c);
            let i = choose|i: int|
                0 <= i < pending(n, space, rule).len() && pending(n, space, rule)[i] == item;
            let c = all.filter(due)[i];
            all.lemma_filter_pred(due, i);
            assert(work_for(rule, c) == item);
            assert(derived_coords(rule, c) == target);
            assert(derived_key(rule, c) == item.input_key);
        }
    }
}

/// What is up to date stays so under every op that does not write the target.
pub proof fn law_stays_settled(
    m: MachineView,
    op: StampedView,
    space: Text,
    rule: RuleView,
    cell: CellView,
)
    requires
        m.spaces.contains_key(space),
        up_to_date(m.spaces[space], rule, cell),
        !writes(op, space, canonical_key(derived_coords(rule, cell))),
    ensures
        applied(m, op).spaces.contains_key(space),
        up_to_date(applied(m, op).spaces[space], rule, cell),
{
}

/// A change of the input makes a derivation due again: with another key for the same
/// target, it is no longer up to date.
pub proof fn law_change_is_due(s: SpaceView, rule: RuleView, cell: CellView, changed: CellView)
    requires
        up_to_date(s, rule, cell),
        changed.coords == cell.coords,
        derived_key(rule, changed) != derived_key(rule, cell),
    ensures
        !up_to_date(s, rule, changed),
{
}

} // verus!
