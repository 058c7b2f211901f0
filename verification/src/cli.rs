//! The command line: flags, coordinate tuples and values, and the request that a
//! command stands for.

use vstd::prelude::*;
use vstd::std_specs::iter::IteratorSpec;
use vstd::utf8::encode_utf8;

use crate::encode::concat3;
use crate::json::{json_document, Json};
use crate::proto::{default_kind, params_at, Params, ParamsView, Request, RequestView};
use crate::sorted_map::{views, SortedMap};
use crate::space::{
    parsed_ref, view_opt, view_result, Coords, CoordsView, Ref, Rule, RuleView, Value, ValueView,
};
use crate::text::{concat, cut_once, lemma_first_at, same_text, split_once, Text};

verus! {

/// How the command line is used.
pub const USAGE: &'static str = "ce-grid — N-dimensional data comparison spaces over the CE mesh

USAGE:
  ce-grid serve [--state <path>]                 run this node's instance
  ce-grid spaces [--node <id>]                   list spaces
  ce-grid create <space>                         create a space
  ce-grid describe <space>                       dimensions, rules, cell count
  ce-grid dim <space> <name> [--kind <k>]        add a dimension
  ce-grid coord <space> <dim> <key>              declare a coordinate
  ce-grid set <space> --at k=v[,k=v...] (--text s | --number f | --bool b | --ts ms | --json j | --ref scheme:addr)
  ce-grid clear <space> --at k=v[,...]           tombstone a cell
  ce-grid get <space> --at k=v[,...]             most specific cell at a point
  ce-grid slice <space> [--fix k=v[,...]]        all cells compatible with the fix
  ce-grid rule <space> --id r --converter c --target rep [--source k=v[,...]] [--params <json>]
  ce-grid rules <space>                          list derivation rules
  ce-grid materialize <space> [--rule r]         run pending derivations (via mesh converters)
  ce-grid analyze <space> --op <compare|classify|summarize|check> [--fix k=v[,...]] [--params <json>]

Every verb accepts --node <node-id> to target a remote instance (reads only in v1).";

/// Flags by name.
pub type Flags = SortedMap<String>;

/// What a set of flags stands for.
pub type FlagsView = Map<Text, Text>;

/// Does an argument name a flag?
pub open spec fn is_flag(arg: Text) -> bool {
    arg.len() >= 2 && arg[0] == '-' && arg[1] == '-'
}

/// The flags and positional arguments from position `i` on, added to those before.
/// A flag takes the argument that follows it, whatever it is; the last one may
/// stand alone.
pub open spec fn args_from(
    args: Seq<Text>,
    i: int,
    flags: FlagsView,
    pos: Seq<Text>,
) -> (FlagsView, Seq<Text>)
    decreases args.len() - i,
{
    if i < 0 || i >= args.len() {
        (flags, pos)
    } else if !is_flag(args[i]) {
        args_from(args, i + 1, flags, pos.push(args[i]))
    } else if i + 1 < args.len() {
        args_from(args, i + 2, flags.insert(args[i].skip(2), args[i + 1]), pos)
    } else {
        args_from(args, i + 1, flags.insert(args[i].skip(2), Seq::empty()), pos)
    }
}

fn flag_name(arg: &str) -> (name: Option<&str>)
    ensures
        name is Some <==> is_flag(arg@),
        name matches Some(n) ==> n@ == arg@.skip(2),
{
    let n: usize = arg.unicode_len();
    if n >= 2 && arg.get_char(0) == '-' && arg.get_char(1) == '-' {
        Some(arg.substring_char(2, n))
    } else {
        None
    }
}

/// Sort arguments into flags and positional ones.
pub fn parse_args(args: &Vec<String>) -> (r: (Flags, Vec<String>))
    ensures
        (r.0@, views(r.1@)) == args_from(views(args@), 0, Map::empty(), Seq::empty()),
{
    let mut flags: Flags = SortedMap::new();
    let mut pos: Vec<String> = Vec::new();
    let ghost all = views(args@);
    assert(views(pos@) =~= Seq::<Text>::empty());
    let mut i: usize = 0;
    while i < args.len()
        invariant
            i <= args.len(),
            all == views(args@),
            args_from(all, i as int, flags@, views(pos@)) == args_from(
                all,
                0,
                Map::empty(),
                Seq::empty(),
            ),
        decreases args.len() - i,
    {
        let a = &args[i];
        assert(all[i as int] == a@);
        match flag_name(a.as_str()) {
            Some(name) => {
                if i + 1 < args.len() {
                    assert(all[i + 1] == args@[i + 1]@);
                    flags.insert(name.to_string(), args[i + 1].clone());
                    i += 2;
                } else {
                    flags.insert(name.to_string(), String::new());
                    i += 1;
                }
            },
            None => {
                let ghost held = pos@;
                pos.push(a.clone());
                assert(views(pos@) =~= views(held).push(a@));
                i += 1;
            },
        }
    }
    (flags, pos)
}

/// The stretches of a text between commas.
pub open spec fn comma_parts(s: Text) -> Seq<Text>
    decreases s.len(),
{
    match split_once(s, ',') {
        Some((head, tail)) => if tail.len() < s.len() {
            seq![head] + comma_parts(tail)
        } else {
            seq![head]
        },
        None => seq![s],
    }
}

/// The coordinates that the parts spell as `dim=key`, added to those before. Empty
/// parts are passed over, later ones win, and the first bad one is the complaint.
pub open spec fn coords_from(parts: Seq<Text>, coords: CoordsView) -> Result<CoordsView, Text>
    decreases parts.len(),
{
    if parts.len() == 0 {
        Ok(coords)
    } else if parts[0].len() == 0 {
        coords_from(parts.drop_first(), coords)
    } else {
        match split_once(parts[0], '=') {
            Some((dim, key)) => if dim.len() == 0 || key.len() == 0 {
                Err("bad coordinate '"@ + parts[0] + "' (empty side)"@)
            } else {
                coords_from(parts.drop_first(), coords.insert(dim, key))
            },
            None => Err("bad coordinate '"@ + parts[0] + "' (want dim=key)"@),
        }
    }
}

/// The coordinate tuple that a text like `dim=key,dim2=key2` spells.
pub open spec fn spelled_coords(s: Text) -> Result<CoordsView, Text> {
    coords_from(comma_parts(s), Map::empty())
}

/// Parse "dim=key,dim2=key2" into a coordinate tuple.
pub fn parse_coords(s: &str) -> (r: Result<Coords, String>)
    ensures
        view_result(r) == spelled_coords(s@),
{
    let mut coords: Coords = SortedMap::new();
    let mut rest = s;
    loop
        invariant
            spelled_coords(s@) == coords_from(comma_parts(rest@), coords@),
        decreases rest@.len(),
    {
        let ghost before = rest@;
        let (part, tail) = match cut_once(rest, ',') {
            Some((head, tail)) => (head, Some(tail)),
            None => (rest, None),
        };
        proof {
            lemma_first_at(before, ',');
            let parts = comma_parts(before);
            assert(parts[0] == part@);
            if let Some(tail) = tail {
                assert(parts.drop_first() =~= comma_parts(tail@));
            } else {
                assert(parts.drop_first() =~= Seq::<Text>::empty());
            }
        }
        if !part.is_empty() {
            match cut_once(part, '=') {
                Some((dim, key)) => {
                    if dim.is_empty() || key.is_empty() {
                        return Err(concat3("bad coordinate '", part, "' (empty side)"));
                    }
                    coords.insert(dim.to_string(), key.to_string());
                },
                None => {
                    return Err(concat3("bad coordinate '", part, "' (want dim=key)"));
                },
            }
        }
        match tail {
            Some(tail) => {
                rest = tail;
            },
            None => {
                assert(coords_from(Seq::<Text>::empty(), coords@) == Ok::<CoordsView, Text>(
                    coords@,
                ));
                return Ok(coords);
            },
        }
    }
}

/// Is a character a decimal digit?
pub open spec fn is_digit(c: char) -> bool {
    48 <= c as int <= 57
}

/// The number that decimal digits spell.
pub open spec fn digits_value(s: Text) -> nat
    decreases s.len(),
{
    if s.len() == 0 {
        0
    } else {
        digits_value(s.drop_last()) * 10 + (s.last() as int - 48) as nat
    }
}

/// The digits of a number, without the sign in front.
pub open spec fn unsigned_part(s: Text) -> Text {
    if s.len() > 0 && (s[0] == '-' || s[0] == '+') {
        s.skip(1)
    } else {
        s
    }
}

/// The 64-bit integer that a text spells: an optional sign and at least one digit.
pub open spec fn integer_value(s: Text) -> Option<int> {
    let digits = unsigned_part(s);
    let value = if s.len() > 0 && s[0] == '-' {
        -digits_value(digits)
    } else {
        digits_value(digits) as int
    };
    if digits.len() > 0 && (forall|i: int| 0 <= i < digits.len() ==> is_digit(#[trigger] digits[i]))
        && i64::MIN <= value <= i64::MAX {
        Some(value)
    } else {
        None
    }
}

proof fn lemma_digits_grow(s: Text, i: int)
    requires
        0 <= i <= s.len(),
    ensures
        digits_value(s.take(i)) <= digits_value(s),
    decreases s.len() - i,
{
    if i < s.len() {
        assert(s.take(i + 1).drop_last() =~= s.take(i));
        lemma_digits_grow(s, i + 1);
    } else {
        assert(s.take(i) =~= s);
    }
}

fn digits_of(digits: &str) -> (r: Option<u64>)
    ensures
        r matches Some(v) ==> v == digits_value(digits@) && digits@.len() > 0 && (forall|i: int|
            0 <= i < digits@.len() ==> is_digit(#[trigger] digits@[i])),
        r is None ==> digits@.len() == 0 || digits_value(digits@) > 9223372036854775808
            || !(forall|i: int| 0 <= i < digits@.len() ==> is_digit(#[trigger] digits@[i])),
{
    if digits.is_empty() {
        return None;
    }
    let n: usize = digits.unicode_len();
    let mut value: u64 = 0;
    let mut i: usize = 0;
    let mut rest = digits.chars();
    assert(digits@.skip(0) =~= digits@);
    assert(digits@.take(0) =~= Seq::<char>::empty());
    loop
        invariant
            rest.obeys_prophetic_iter_laws(),
            rest.decrease() is Some,
            n == digits@.len(),
            n > 0,
            i <= n,
            rest.remaining() == digits@.skip(i as int),
            forall|j: int| 0 <= j < i ==> is_digit(#[trigger] digits@[j]),
            value == digits_value(digits@.take(i as int)),
            value <= 9223372036854775808,
        decreases rest.decrease()->0,
    {
        match rest.next() {
            None => {
                assert(digits@.take(i as int) =~= digits@);
                return Some(value);
            },
            Some(c) => {
                assert(digits@.skip(i as int).drop_first() =~= digits@.skip(i + 1));
                assert(c == digits@[i as int]);
                assert(digits@.take(i + 1).drop_last() =~= digits@.take(i as int));
                let d: u64 = match c {
                    '0' => 0,
                    '1' => 1,
                    '2' => 2,
                    '3' => 3,
                    '4' => 4,
                    '5' => 5,
                    '6' => 6,
                    '7' => 7,
                    '8' => 8,
                    '9' => 9,
                    _ => {
                        assert(!is_digit(digits@[i as int]));
                        return None;
                    },
                };
                proof {
                    lemma_digits_grow(digits@, i + 1);
                }
                if value > 922337203685477580 {
                    assert(value >= 922337203685477581);
                    return None;
                }
                value = value * 10 + d;
                i += 1;
                if value > 9223372036854775808 {
                    return None;
                }
            },
        }
    }
}

/// Parse a 64-bit integer: an optional sign and at least one digit.
pub fn parse_integer(s: &str) -> (r: Option<i64>)
    ensures
        r is Some <==> integer_value(s@) is Some,
        r matches Some(v) ==> Some(v as int) == integer_value(s@),
{
    let n: usize = s.unicode_len();
    let mut negative = false;
    let mut digits = s;
    if n > 0 {
        let sign = s.get_char(0);
        if sign == '-' || sign == '+' {
            negative = sign == '-';
            digits = s.substring_char(1, n);
            assert(s@.subrange(1, n as int) =~= s@.skip(1));
        }
    }
    assert(digits@ == unsigned_part(s@));
    match digits_of(digits) {
        Some(v) => {
            if negative {
                if v <= 9223372036854775808 {
                    Some((-(v as i128)) as i64)
                } else {
                    None
                }
            } else if v <= 9223372036854775807 {
                Some(v as i64)
            } else {
                None
            }
        },
        None => None,
    }
}

/// The value that flags give, the first kind of them that is there. `number` is the
/// JSON text of the `--number` flag where it is a float, and `json` that of the
/// `--json` flag where it is JSON.
pub open spec fn flagged_value(
    flags: FlagsView,
    number: Option<Text>,
    json: Option<Text>,
) -> Result<ValueView, Text> {
    if flags.contains_key("text"@) {
        Ok(ValueView::Text { text: flags["text"@] })
    } else if flags.contains_key("number"@) {
        match number {
            Some(number) => Ok(ValueView::Number { number }),
            None => Err("--number wants a float"@),
        }
    } else if flags.contains_key("bool"@) {
        if flags["bool"@] == "true"@ {
            Ok(ValueView::Bool { bool: true })
        } else if flags["bool"@] == "false"@ {
            Ok(ValueView::Bool { bool: false })
        } else {
            Err("--bool wants true|false"@)
        }
    } else if flags.contains_key("ts"@) {
        match integer_value(flags["ts"@]) {
            Some(ms) => Ok(ValueView::Timestamp { ms: ms as i64 }),
            None => Err("--ts wants epoch millis"@),
        }
    } else if flags.contains_key("json"@) {
        match json {
            Some(json) => Ok(ValueView::Json { json }),
            None => Err("--json wants valid JSON"@),
        }
    } else if flags.contains_key("ref"@) {
        match parsed_ref(flags["ref"@]) {
            Some(r) => Ok(ValueView::Ref { r }),
            None => Err("--ref wants scheme:address"@),
        }
    } else {
        Err("give the value: --text | --number | --bool | --ts | --json | --ref"@)
    }
}

/// The value that flags give, once the number and the JSON among them were read.
pub fn value_from(flags: &Flags, number: Option<String>, json: Option<Json>) -> (r: Result<
    Value,
    String,
>)
    ensures
        view_result(r) == flagged_value(flags@, view_opt(number), view_opt(json)),
{
    if let Some(text) = flags.get("text") {
        return Ok(Value::Text { text: text.clone() });
    }
    if flags.contains_key("number") {
        return match number {
            Some(number) => Ok(Value::Number { number }),
            None => Err("--number wants a float".to_string()),
        };
    }
    if let Some(b) = flags.get("bool") {
        if same_text(b.as_str(), "true") {
            return Ok(Value::Bool { bool: true });
        }
        if same_text(b.as_str(), "false") {
            return Ok(Value::Bool { bool: false });
        }
        return Err("--bool wants true|false".to_string());
    }
    if let Some(ts) = flags.get("ts") {
        return match parse_integer(ts.as_str()) {
            Some(ms) => Ok(Value::Timestamp { ms }),
            None => Err("--ts wants epoch millis".to_string()),
        };
    }
    if flags.contains_key("json") {
        return match json {
            Some(json) => Ok(Value::Json { json }),
            None => Err("--json wants valid JSON".to_string()),
        };
    }
    if let Some(r) = flags.get("ref") {
        return match Ref::parse(r.as_str()) {
            Some(r) => Ok(Value::Ref { r }),
            None => Err("--ref wants scheme:address".to_string()),
        };
    }
    Err("give the value: --text | --number | --bool | --ts | --json | --ref".to_string())
}

/// The compact text of the JSON in a flag, where the flag is there and is JSON.
pub open spec fn flag_json(flags: FlagsView, name: Text) -> Option<Text> {
    if flags.contains_key(name) {
        json_document(encode_utf8(flags[name]))
    } else {
        None
    }
}

fn read_json_flag(flags: &Flags, name: &str) -> (r: Option<Json>)
    ensures
        view_opt(r) == flag_json(flags@, name@),
{
    match flags.get(name) {
        Some(text) => Json::read(text.as_str().as_bytes()),
        None => None,
    }
}

/// The parameters in the `--params` flag, where the flag is there and is JSON.
pub open spec fn flag_params(flags: FlagsView) -> Option<ParamsView> {
    if flags.contains_key("params"@) {
        params_at(encode_utf8(flags["params"@]), ""@)
    } else {
        None
    }
}

fn read_params_flag(flags: &Flags) -> (r: Option<Params>)
    ensures
        view_opt(r) == flag_params(flags@),
{
    match flags.get("params") {
        Some(text) => Params::read_at(text.as_str().as_bytes(), ""),
        None => None,
    }
}

/// The value that flags give. `number` is the JSON text of the `--number` flag where
/// it is a float.
pub fn parse_value(flags: &Flags, number: Option<String>) -> (r: Result<Value, String>)
    ensures
        view_result(r) == flagged_value(flags@, view_opt(number), flag_json(flags@, "json"@)),
{
    let json = read_json_flag(flags, "json");
    value_from(flags, number, json)
}

/// What a good outcome leads to; a complaint stands.
pub open spec fn chain<A, B>(r: Result<A, Text>, next: spec_fn(A) -> Result<B, Text>) -> Result<
    B,
    Text,
> {
    match r {
        Ok(a) => next(a),
        Err(e) => Err(e),
    }
}

/// The positional argument at `i`, or the complaint that it is missing.
pub open spec fn positional(pos: Seq<Text>, i: int, missing: Text) -> Result<Text, Text> {
    if i < pos.len() {
        Ok(pos[i])
    } else {
        Err(missing)
    }
}

/// The flag `name`, or the complaint that it is missing.
pub open spec fn required_flag(flags: FlagsView, name: Text, missing: Text) -> Result<Text, Text> {
    if flags.contains_key(name) {
        Ok(flags[name])
    } else {
        Err(missing)
    }
}

/// The space that a command is about.
pub open spec fn space_argument(pos: Seq<Text>) -> Result<Text, Text> {
    positional(pos, 0, "missing <space>\n\n"@ + USAGE@)
}

/// The tuple in the `--at` flag.
pub open spec fn at_flag(flags: FlagsView) -> Result<CoordsView, Text> {
    chain(required_flag(flags, "at"@, "missing --at"@), |s: Text| spelled_coords(s))
}

/// The tuple in an optional flag, empty where the flag is not there.
pub open spec fn coords_flag(flags: FlagsView, name: Text) -> Result<CoordsView, Text> {
    if flags.contains_key(name) {
        spelled_coords(flags[name])
    } else {
        Ok(Map::empty())
    }
}

/// The parameters: none where the flag is not there, and `params` are those of the
/// flag where it is JSON.
pub open spec fn params_flag(flags: FlagsView, params: Option<ParamsView>) -> Result<
    Option<ParamsView>,
    Text,
> {
    if !flags.contains_key("params"@) {
        Ok(None)
    } else if params is Some {
        Ok(params)
    } else {
        Err("--params wants JSON"@)
    }
}

/// The rule that flags define.
pub open spec fn flagged_rule(flags: FlagsView, params: Option<ParamsView>) -> Result<
    RuleView,
    Text,
> {
    chain(
        required_flag(flags, "id"@, "missing --id"@),
        |id: Text|
            chain(
                coords_flag(flags, "source"@),
                |source: CoordsView|
                    chain(
                        required_flag(flags, "converter"@, "missing --converter"@),
                        |converter: Text|
                            chain(
                                required_flag(flags, "target"@, "missing --target"@),
                                |target_representation: Text|
                                    chain(
                                        params_flag(flags, params),
                                        |params: Option<ParamsView>|
                                            Ok(
                                                RuleView {
                                                    id,
                                                    source,
                                                    converter,
                                                    target_representation,
                                                    params: match params {
                                                        Some(p) => Some(p.json),
                                                        None => None,
                                                    },
                                                },
                                            ),
                                    ),
                            ),
                    ),
            ),
    )
}

/// An optional flag.
pub open spec fn optional_flag(flags: FlagsView, name: Text) -> Option<Text> {
    if flags.contains_key(name) {
        Some(flags[name])
    } else {
        None
    }
}

/// The request that a command stands for. `number`, `json` and `params` are what
/// the flags of those names hold, where they are well-formed.
pub open spec fn command_request(
    cmd: Text,
    flags: FlagsView,
    pos: Seq<Text>,
    number: Option<Text>,
    json: Option<Text>,
    params: Option<ParamsView>,
) -> Result<RequestView, Text> {
    if cmd == "spaces"@ {
        Ok(RequestView::Spaces)
    } else if cmd == "create"@ {
        chain(space_argument(pos), |space: Text| Ok(RequestView::CreateSpace { space }))
    } else if cmd == "describe"@ {
        chain(space_argument(pos), |space: Text| Ok(RequestView::Describe { space }))
    } else if cmd == "dim"@ {
        let kind = match optional_flag(flags, "kind"@) {
            Some(kind) => kind,
            None => "string"@,
        };
        chain(
            space_argument(pos),
            |space: Text|
                chain(
                    positional(pos, 1, "missing <name>"@),
                    |name: Text| Ok(RequestView::AddDimension { space, name, kind }),
                ),
        )
    } else if cmd == "coord"@ {
        chain(
            space_argument(pos),
            |space: Text|
                chain(
                    positional(pos, 1, "missing <dim>"@),
                    |dimension: Text|
                        chain(
                            positional(pos, 2, "missing <key>"@),
                            |key: Text|
                                Ok(RequestView::AddCoordinate { space, dimension, key }),
                        ),
                ),
        )
    } else if cmd == "set"@ {
        chain(
            space_argument(pos),
            |space: Text|
                chain(
                    at_flag(flags),
                    |coords: CoordsView|
                        chain(
                            flagged_value(flags, number, json),
                            |value: ValueView| Ok(RequestView::SetCell { space, coords, value }),
                        ),
                ),
        )
    } else if cmd == "clear"@ {
        chain(
            space_argument(pos),
            |space: Text|
                chain(
                    at_flag(flags),
                    |coords: CoordsView| Ok(RequestView::ClearCell { space, coords }),
                ),
        )
    } else if cmd == "get"@ {
        chain(
            space_argument(pos),
            |space: Text|
                chain(
                    at_flag(flags),
                    |coords: CoordsView| Ok(RequestView::Get { space, coords }),
                ),
        )
    } else if cmd == "slice"@ {
        chain(
            space_argument(pos),
            |space: Text|
                chain(
                    coords_flag(flags, "fix"@),
                    |fixed: CoordsView| Ok(RequestView::Slice { space, fixed }),
                ),
        )
    } else if cmd == "rule"@ {
        chain(
            space_argument(pos),
            |space: Text|
                chain(
                    flagged_rule(flags, params),
                    |rule: RuleView| Ok(RequestView::DefineRule { space, rule }),
                ),
        )
    } else if cmd == "rules"@ {
        chain(space_argument(pos), |space: Text| Ok(RequestView::Rules { space }))
    } else if cmd == "materialize"@ {
        chain(
            space_argument(pos),
            |space: Text|
                Ok(RequestView::Materialize { space, rule: optional_flag(flags, "rule"@) }),
        )
    } else if cmd == "analyze"@ {
        chain(
            space_argument(pos),
            |space: Text|
                chain(
                    required_flag(flags, "op"@, "missing --op"@),
                    |op: Text|
                        chain(
                            coords_flag(flags, "fix"@),
                            |fixed: CoordsView|
                                chain(
                                    params_flag(flags, params),
                                    |params: Option<ParamsView>|
                                        Ok(RequestView::Analyze { space, op, fixed, params }),
                                ),
                        ),
                ),
        )
    } else {
        Err("unknown command '"@ + cmd + "'\n\n"@ + USAGE@)
    }
}

fn get_positional(pos: &Vec<String>, i: usize, missing: &str) -> (r: Result<String, String>)
    ensures
        view_result(r) == positional(views(pos@), i as int, missing@),
{
    if i < pos.len() {
        assert(views(pos@)[i as int] == pos@[i as int]@);
        Ok(pos[i].clone())
    } else {
        Err(missing.to_string())
    }
}

fn get_required(flags: &Flags, name: &str, missing: &str) -> (r: Result<String, String>)
    ensures
        view_result(r) == required_flag(flags@, name@, missing@),
{
    match flags.get(name) {
        Some(value) => Ok(value.clone()),
        None => Err(missing.to_string()),
    }
}

fn get_optional(flags: &Flags, name: &str) -> (r: Option<String>)
    ensures
        view_opt(r) == optional_flag(flags@, name@),
{
    match flags.get(name) {
        Some(value) => Some(value.clone()),
        None => None,
    }
}

fn get_at(flags: &Flags) -> (r: Result<Coords, String>)
    ensures
        view_result(r) == at_flag(flags@),
{
    match flags.get("at") {
        Some(at) => parse_coords(at.as_str()),
        None => Err("missing --at".to_string()),
    }
}

fn get_coords(flags: &Flags, name: &str) -> (r: Result<Coords, String>)
    ensures
        view_result(r) == coords_flag(flags@, name@),
{
    match flags.get(name) {
        Some(spelled) => parse_coords(spelled.as_str()),
        None => Ok(SortedMap::new()),
    }
}

/// What optional parameters or a complaint stand for.
pub open spec fn view_params(r: Result<Option<Params>, String>) -> Result<
    Option<ParamsView>,
    Text,
> {
    match r {
        Ok(p) => Ok(view_opt(p)),
        Err(e) => Err(e@),
    }
}

fn get_params(flags: &Flags, params: Option<Params>) -> (r: Result<Option<Params>, String>)
    ensures
        view_params(r) == params_flag(flags@, view_opt(params)),
{
    if !flags.contains_key("params") {
        Ok(None)
    } else if params.is_some() {
        Ok(params)
    } else {
        Err("--params wants JSON".to_string())
    }
}

fn get_rule(flags: &Flags, params: Option<Params>) -> (r: Result<Rule, String>)
    ensures
        view_result(r) == flagged_rule(flags@, view_opt(params)),
{
    let id = match get_required(flags, "id", "missing --id") {
        Ok(id) => id,
        Err(e) => {
            return Err(e);
        },
    };
    let source = match get_coords(flags, "source") {
        Ok(source) => source,
        Err(e) => {
            return Err(e);
        },
    };
    let converter = match get_required(flags, "converter", "missing --converter") {
        Ok(converter) => converter,
        Err(e) => {
            return Err(e);
        },
    };
    let target_representation = match get_required(flags, "target", "missing --target") {
        Ok(target) => target,
        Err(e) => {
            return Err(e);
        },
    };
    match get_params(flags, params) {
        Ok(params) => {
            let params = match params {
                Some(p) => Some(p.json),
                None => None,
            };
            Ok(Rule { id, source, converter, target_representation, params })
        },
        Err(e) => Err(e),
    }
}

/// The request that a command stands for, once the number and the JSON among its
/// flags were read.
pub fn request_from(
    cmd: &str,
    flags: &Flags,
    pos: &Vec<String>,
    number: Option<String>,
    json: Option<Json>,
    params: Option<Params>,
) -> (r: Result<Request, String>)
    ensures
        view_result(r) == command_request(
            cmd@,
            flags@,
            views(pos@),
            view_opt(number),
            view_opt(json),
            view_opt(params),
        ),
{
    if same_text(cmd, "spaces") {
        return Ok(Request::Spaces);
    }
    let known = same_text(cmd, "create") || same_text(cmd, "describe") || same_text(cmd, "dim")
        || same_text(cmd, "coord") || same_text(cmd, "set") || same_text(cmd, "clear")
        || same_text(cmd, "get") || same_text(cmd, "slice") || same_text(cmd, "rule")
        || same_text(cmd, "rules") || same_text(cmd, "materialize") || same_text(cmd, "analyze");
    if !known {
        return Err(concat(concat3("unknown command '", cmd, "'\n\n").as_str(), USAGE));
    }
    let missing = concat("missing <space>\n\n", USAGE);
    let space = match get_positional(pos, 0, missing.as_str()) {
        Ok(space) => space,
        Err(e) => {
            return Err(e);
        },
    };
    if same_text(cmd, "create") {
        Ok(Request::CreateSpace { space })
    } else if same_text(cmd, "describe") {
        Ok(Request::Describe { space })
    } else if same_text(cmd, "dim") {
        let kind = match get_optional(flags, "kind") {
            Some(kind) => kind,
            None => default_kind(),
        };
        match get_positional(pos, 1, "missing <name>") {
            Ok(name) => Ok(Request::AddDimension { space, name, kind }),
            Err(e) => Err(e),
        }
    } else if same_text(cmd, "coord") {
        match get_positional(pos, 1, "missing <dim>") {
            Ok(dimension) => match get_positional(pos, 2, "missing <key>") {
                Ok(key) => Ok(Request::AddCoordinate { space, dimension, key }),
                Err(e) => Err(e),
            },
            Err(e) => Err(e),
        }
    } else if same_text(cmd, "set") {
        match get_at(flags) {
            Ok(coords) => match value_from(flags, number, json) {
                Ok(value) => Ok(Request::SetCell { space, coords, value }),
                Err(e) => Err(e),
            },
            Err(e) => Err(e),
        }
    } else if same_text(cmd, "clear") {
        match get_at(flags) {
            Ok(coords) => Ok(Request::ClearCell { space, coords }),
            Err(e) => Err(e),
        }
    } else if same_text(cmd, "get") {
        match get_at(flags) {
            Ok(coords) => Ok(Request::Get { space, coords }),
            Err(e) => Err(e),
        }
    } else if same_text(cmd, "slice") {
        match get_coords(flags, "fix") {
            Ok(fixed) => Ok(Request::Slice { space, fixed }),
            Err(e) => Err(e),
        }
    } else if same_text(cmd, "rule") {
        match get_rule(flags, params) {
            Ok(rule) => Ok(Request::DefineRule { space, rule }),
            Err(e) => Err(e),
        }
    } else if same_text(cmd, "rules") {
        Ok(Request::Rules { space })
    } else if same_text(cmd, "materialize") {
        Ok(Request::Materialize { space, rule: get_optional(flags, "rule") })
    } else {
        match get_required(flags, "op", "missing --op") {
            Ok(op) => match get_coords(flags, "fix") {
                Ok(fixed) => match get_params(flags, params) {
                    Ok(params) => Ok(Request::Analyze { space, op, fixed, params }),
                    Err(e) => Err(e),
                },
                Err(e) => Err(e),
            },
            Err(e) => Err(e),
        }
    }
}

/// The request that a command stands for. `number` is the JSON text of the
/// `--number` flag where it is a float.
pub fn parse_command(cmd: &str, flags: &Flags, pos: &Vec<String>, number: Option<String>) -> (r:
    Result<Request, String>)
    ensures
        view_result(r) == command_request(
            cmd@,
            flags@,
            views(pos@),
            view_opt(number),
            flag_json(flags@, "json"@),
            flag_params(flags@),
        ),
{
    let json = read_json_flag(flags, "json");
    let params = read_params_flag(flags);
    request_from(cmd, flags, pos, number, json, params)
}

} // verus!
