//! What the command line says: arguments, coordinate tuples, integers, values, and the
//! request that a command stands for.

use vstd::prelude::*;
use vstd::utf8::encode_utf8;

use crate::addressing::free_of;
use crate::cli::{
    args_from, command_request, comma_parts, coords_from, digits_value, flag_json, flag_params,
    flagged_value, integer_value, is_digit, spelled_coords, unsigned_part, FlagsView, USAGE,
};
use crate::json::{json_at, json_document};
use crate::proto::{ParamsView, RequestView};
use crate::space::{parsed_ref, CoordsView, RuleView, ValueView};
use crate::spelling::lemma_split_at;
use crate::text::{split_once, Text};

verus! {

proof fn lemma_args_shift(args: Seq<Text>, i: int, k: int, flags: FlagsView, pos: Seq<Text>)
    requires
        0 <= i,
        0 <= k,
        i + k <= args.len(),
    ensures
        args_from(args, i + k, flags, pos) == args_from(args.skip(k), i, flags, pos),
    decreases args.len() - i - k,
{
    let rest = args.skip(k);
    if i + k < args.len() {
        assert(rest[i] == args[i + k]);
        if i + k + 1 < args.len() {
            assert(rest[i + 1] == args[i + k + 1]);
            let named = flags.insert(args[i + k].skip(2), args[i + k + 1]);
            lemma_args_shift(args, i + 2, k, named, pos);
        } else {
            lemma_args_shift(
                args,
                i + 1,
                k,
                flags.insert(args[i + k].skip(2), Seq::empty()),
                pos,
            );
        }
        lemma_args_shift(args, i + 1, k, flags, pos.push(args[i + k]));
    }
}

proof fn lemma_args_added(args: Seq<Text>, i: int, flags: FlagsView, pos: Seq<Text>)
    requires
        0 <= i,
    ensures
        ({
            let r = args_from(args, i, Map::empty(), Seq::empty());
            args_from(args, i, flags, pos) == (flags.union_prefer_right(r.0), pos + r.1)
        }),
    decreases args.len() - i,
{
    let nothing = Map::<Text, Text>::empty();
    let none = Seq::<Text>::empty();
    if i >= args.len() {
        assert(flags.union_prefer_right(nothing) =~= flags);
        assert(pos + none =~= pos);
    } else if !crate::cli::is_flag(args[i]) {
        lemma_args_added(args, i + 1, flags, pos.push(args[i]));
        lemma_args_added(args, i + 1, nothing, none.push(args[i]));
        let r = args_from(args, i + 1, nothing, none);
        assert(pos.push(args[i]) + r.1 =~= pos + (none.push(args[i]) + r.1));
        assert(nothing.union_prefer_right(r.0) =~= r.0);
    } else {
        let name = args[i].skip(2);
        let value = if i + 1 < args.len() {
            args[i + 1]
        } else {
            Seq::empty()
        };
        let next = if i + 1 < args.len() {
            i + 2
        } else {
            i + 1
        };
        lemma_args_added(args, next, flags.insert(name, value), pos);
        lemma_args_added(args, next, nothing.insert(name, value), none);
        let r = args_from(args, next, nothing, none);
        assert(none + r.1 =~= r.1);
        assert(flags.insert(name, value).union_prefer_right(r.0) =~= flags.union_prefer_right(
            nothing.insert(name, value).union_prefer_right(r.0),
        ));
    }
}

/// Arguments are taken from the front. One that does not begin with two dashes is positional
/// and keeps its place; one that does names a flag and takes the argument behind it for its
/// value, whatever that is, or nothing where it is the last. Of two flags of one name the
/// later counts.
pub proof fn law_arguments(a: Text, value: Text, rest: Seq<Text>)
    ensures
        ({
            let read = |args: Seq<Text>| args_from(args, 0, Map::empty(), Seq::empty());
            let names = a.len() >= 2 && a[0] == '-' && a[1] == '-';
            &&& read(Seq::empty()) == (Map::<Text, Text>::empty(), Seq::<Text>::empty())
            &&& !names ==> read(seq![a] + rest) == (read(rest).0, seq![a] + read(rest).1)
            &&& names ==> read(seq![a, value] + rest) == (
                Map::<Text, Text>::empty().insert(
                    a.subrange(2, a.len() as int),
                    value,
                ).union_prefer_right(read(rest).0),
                read(rest).1,
            )
            &&& names ==> read(seq![a]) == (
                Map::<Text, Text>::empty().insert(a.subrange(2, a.len() as int), Seq::empty()),
                Seq::<Text>::empty(),
            )
        }),
{
    let nothing = Map::<Text, Text>::empty();
    let none = Seq::<Text>::empty();
    let read = |args: Seq<Text>| args_from(args, 0, nothing, none);
    let names = a.len() >= 2 && a[0] == '-' && a[1] == '-';
    if !names {
        let args = seq![a] + rest;
        assert(args.skip(1) =~= rest);
        lemma_args_shift(args, 0, 1, nothing, none.push(a));
        lemma_args_added(rest, 0, nothing, none.push(a));
        assert(nothing.union_prefer_right(read(rest).0) =~= read(rest).0);
        assert(none.push(a) =~= seq![a]);
        assert(args[0] == a);
    } else {
        let args = seq![a, value] + rest;
        let name = a.subrange(2, a.len() as int);
        assert(a.skip(2) =~= name);
        assert(args.skip(2) =~= rest);
        assert(args[0] == a && args[1] == value);
        lemma_args_shift(args, 0, 2, nothing.insert(name, value), none);
        lemma_args_added(rest, 0, nothing.insert(name, value), none);
        assert(none + read(rest).1 =~= read(rest).1);
        assert(seq![a][0] == a);
        assert(args_from(seq![a], 1, nothing.insert(name, Seq::empty()), none) == (
            nothing.insert(name, Seq::empty()),
            none,
        ));
    }
}

proof fn lemma_coords_added(parts: Seq<Text>, coords: CoordsView)
    ensures
        coords_from(parts, coords) == (match coords_from(parts, Map::empty()) {
            Ok(more) => Ok::<CoordsView, Text>(coords.union_prefer_right(more)),
            Err(e) => Err(e),
        }),
    decreases parts.len(),
{
    let nothing = Map::<Text, Text>::empty();
    if parts.len() == 0 {
        assert(coords.union_prefer_right(nothing) =~= coords);
    } else if parts[0].len() == 0 {
        lemma_coords_added(parts.drop_first(), coords);
    } else if let Some((dim, key)) = split_once(parts[0], '=') {
        if dim.len() > 0 && key.len() > 0 {
            lemma_coords_added(parts.drop_first(), coords.insert(dim, key));
            lemma_coords_added(parts.drop_first(), nothing.insert(dim, key));
            if let Ok(more) = coords_from(parts.drop_first(), nothing) {
                assert(coords.insert(dim, key).union_prefer_right(more)
                    =~= coords.union_prefer_right(
                    nothing.insert(dim, key).union_prefer_right(more),
                ));
            }
        }
    }
}

/// What one part of a tuple says: nothing where it is empty, and otherwise a dimension and its
/// coordinate with the first equals sign between them, both of which must be there.
pub proof fn law_coordinate_spelled(part: Text, dim: Text, key: Text)
    requires
        !part.contains(','),
        !dim.contains(','),
        !dim.contains('='),
        !key.contains(','),
    ensures
        spelled_coords(Seq::empty()) == Ok::<CoordsView, Text>(Map::empty()),
        part.len() > 0 && !part.contains('=') ==> spelled_coords(part) == Err::<CoordsView, Text>(
            "bad coordinate '"@ + part + "' (want dim=key)"@,
        ),
        dim.len() == 0 || key.len() == 0 ==> spelled_coords(dim + seq!['='] + key) == Err::<
            CoordsView,
            Text,
        >("bad coordinate '"@ + (dim + seq!['='] + key) + "' (empty side)"@),
        dim.len() > 0 && key.len() > 0 ==> spelled_coords(dim + seq!['='] + key) == Ok::<
            CoordsView,
            Text,
        >(Map::empty().insert(dim, key)),
{
    lemma_one_part(part);
    lemma_one_part(Seq::empty());
    let both = dim + seq!['='] + key;
    assert(!both.contains(',')) by {
        if both.contains(',') {
            let i = choose|i: int| 0 <= i < both.len() && both[i] == ',';
            if i < dim.len() {
                assert(dim[i] == ',');
            } else if i > dim.len() {
                assert(key[i - dim.len() - 1] == ',');
            }
        }
    }
    lemma_one_part(both);
    lemma_free(dim, '=');
    lemma_split_at(dim, '=', key);
    crate::formats::law_cut(part, '=');
    let nothing = Map::<Text, Text>::empty();
    assert(seq![both].drop_first() =~= Seq::<Text>::empty());
    assert(seq![Seq::<char>::empty()].drop_first() =~= Seq::<Text>::empty());
    assert(coords_from(Seq::<Text>::empty(), nothing.insert(dim, key)) == Ok::<CoordsView, Text>(
        nothing.insert(dim, key),
    ));
    assert(coords_from(Seq::<Text>::empty(), nothing) == Ok::<CoordsView, Text>(nothing));
    if split_once(part, '=') is Some {
        let (head, tail) = split_once(part, '=')->0;
        assert(part[head.len() as int] == '=');
    }
}

proof fn lemma_free(s: Text, c: char)
    requires
        !s.contains(c),
    ensures
        free_of(s, c),
{
    assert forall|i: int| 0 <= i < s.len() implies #[trigger] s[i] != c by {
        assert(s.contains(s[i]));
    }
}

proof fn lemma_one_part(part: Text)
    requires
        !part.contains(','),
    ensures
        comma_parts(part) == seq![part],
{
    crate::formats::law_cut(part, ',');
    if split_once(part, ',') is Some {
        let (head, tail) = split_once(part, ',')->0;
        assert(part[head.len() as int] == ',');
    }
}

/// Parts of a tuple are separated by commas. The first bad part is the complaint; otherwise
/// the tuple has the coordinates of all parts, and of two for one dimension the later.
pub proof fn law_coordinates_joined(part: Text, rest: Text)
    requires
        !part.contains(','),
    ensures
        spelled_coords(part + seq![','] + rest) == (match spelled_coords(part) {
            Err(e) => Err::<CoordsView, Text>(e),
            Ok(first) => match spelled_coords(rest) {
                Err(e) => Err(e),
                Ok(more) => Ok(first.union_prefer_right(more)),
            },
        }),
{
    let s = part + seq![','] + rest;
    let nothing = Map::<Text, Text>::empty();
    lemma_free(part, ',');
    lemma_split_at(part, ',', rest);
    lemma_one_part(part);
    let parts = comma_parts(s);
    assert(parts == seq![part] + comma_parts(rest));
    assert(parts[0] == part);
    assert(parts.drop_first() =~= comma_parts(rest));
    assert(seq![part].drop_first() =~= Seq::<Text>::empty());
    assert(coords_from(Seq::<Text>::empty(), nothing) == Ok::<CoordsView, Text>(nothing));
    if part.len() == 0 {
        lemma_coords_added(comma_parts(rest), nothing);
    } else if let Some((dim, key)) = split_once(part, '=') {
        let one = nothing.insert(dim, key);
        assert(coords_from(Seq::<Text>::empty(), one) == Ok::<CoordsView, Text>(one));
        lemma_coords_added(comma_parts(rest), one);
    }
}

proof fn lemma_pushed(s: Text, c: char)
    ensures
        digits_value(s.push(c)) == digits_value(s) * 10 + (c as int - 48) as nat,
{
    assert(s.push(c).drop_last() =~= s);
}

/// An integer is spelled by digits, with a minus or a plus in front or without. One digit
/// more makes ten times the number and the digit, away from zero; what does not fit into 64
/// bits is none, nor is what holds anything else or no digit.
pub proof fn law_integer_spelled(s: Text, d: int)
    requires
        0 <= d < 10,
    ensures
        ({
            let c = (48 + d) as char;
            let digits = |t: Text|
                t.len() > 0 && forall|i: int|
                    0 <= i < t.len() ==> 48 <= (#[trigger] t[i]) as int <= 57;
            &&& integer_value(seq![c]) == Some(d)
            &&& integer_value(seq!['-', c]) == Some(-d)
            &&& digits(s) ==> integer_value(seq!['+'] + s) == integer_value(s)
            &&& digits(s) ==> integer_value(s.push(c)) == (match integer_value(s) {
                Some(v) => if v * 10 + d <= i64::MAX {
                    Some(v * 10 + d)
                } else {
                    None
                },
                None => None,
            })
            &&& digits(s) ==> integer_value((seq!['-'] + s).push(c)) == (match integer_value(
                seq!['-'] + s,
            ) {
                Some(v) => if v * 10 - d >= i64::MIN {
                    Some(v * 10 - d)
                } else {
                    None
                },
                None => None,
            })
            &&& integer_value(s) is Some ==> digits(s) || (s.len() > 1 && (s[0] == '-' || s[0]
                == '+') && digits(s.subrange(1, s.len() as int)))
        }),
{
    let c = (48 + d) as char;
    let digits = |t: Text|
        t.len() > 0 && forall|i: int| 0 <= i < t.len() ==> 48 <= (#[trigger] t[i]) as int <= 57;
    let none = Seq::<char>::empty();
    assert(none.push(c) =~= seq![c]);
    lemma_pushed(none, c);
    assert(seq!['-', c].skip(1) =~= seq![c]);
    assert(unsigned_part(seq![c]) == seq![c]);
    assert(unsigned_part(seq!['-', c]) == seq![c]);
    assert(forall|i: int| 0 <= i < seq![c].len() ==> is_digit(#[trigger] seq![c][i]));
    if digits(s) {
        assert(is_digit(s[0])) by {
            assert(48 <= s[0] as int <= 57);
        }
        assert(forall|i: int| 0 <= i < s.len() ==> is_digit(#[trigger] s[i]));
        assert((seq!['+'] + s).skip(1) =~= s);
        assert((seq!['-'] + s).skip(1) =~= s);
        assert((seq!['-'] + s).push(c).skip(1) =~= s.push(c));
        assert(unsigned_part(s) == s);
        assert(unsigned_part(seq!['+'] + s) == s);
        assert(unsigned_part(seq!['-'] + s) == s);
        assert(s.push(c)[0] == s[0]);
        assert(unsigned_part(s.push(c)) == s.push(c));
        assert(unsigned_part((seq!['-'] + s).push(c)) == s.push(c));
        lemma_pushed(s, c);
        assert forall|i: int| 0 <= i < s.push(c).len() implies is_digit(
            #[trigger] s.push(c)[i],
        ) by {
            if i < s.len() {
                assert(s.push(c)[i] == s[i]);
            }
        }
    }
    if integer_value(s) is Some {
        let t = unsigned_part(s);
        assert(forall|i: int| 0 <= i < t.len() ==> is_digit(#[trigger] t[i]));
        assert(s.len() > 0 ==> s.skip(1) =~= s.subrange(1, s.len() as int));
    }
}

/// The value that flags give: a text, a number, a truth value, a time, JSON or a link,
/// whichever of these flags is there first in this order; and a complaint where it does not
/// spell one, or where none is there.
pub proof fn law_value_flags(flags: FlagsView, number: Option<Text>, json: Option<Text>)
    ensures
        ({
            let r = flagged_value(flags, number, json);
            let has = |name: Text| flags.contains_key(name);
            let bad = |e: Text| r == Err::<ValueView, Text>(e);
            let good = |v: ValueView| r == Ok::<ValueView, Text>(v);
            if has("text"@) {
                good(ValueView::Text { text: flags["text"@] })
            } else if has("number"@) {
                match number {
                    Some(number) => good(ValueView::Number { number }),
                    None => bad("--number wants a float"@),
                }
            } else if has("bool"@) {
                &&& flags["bool"@] == "true"@ ==> good(ValueView::Bool { bool: true })
                &&& flags["bool"@] == "false"@ ==> good(ValueView::Bool { bool: false })
                &&& flags["bool"@] != "true"@ && flags["bool"@] != "false"@ ==> bad(
                    "--bool wants true|false"@,
                )
            } else if has("ts"@) {
                match integer_value(flags["ts"@]) {
                    Some(v) => r matches Ok(ValueView::Timestamp { ms }) && ms == v,
                    None => bad("--ts wants epoch millis"@),
                }
            } else if has("json"@) {
                match json {
                    Some(json) => good(ValueView::Json { json }),
                    None => bad("--json wants valid JSON"@),
                }
            } else if has("ref"@) {
                match parsed_ref(flags["ref"@]) {
                    Some(link) => good(ValueView::Ref { r: link }),
                    None => bad("--ref wants scheme:address"@),
                }
            } else {
                bad("give the value: --text | --number | --bool | --ts | --json | --ref"@)
            }
        }),
{
    reveal_strlit("true");
    reveal_strlit("false");
    assert("true"@.len() == 4 && "false"@.len() == 5);
}

/// JSON in a flag is read from all of its text, and parameters likewise; a flag that is not
/// there holds none.
pub proof fn law_json_flags(flags: FlagsView, name: Text)
    ensures
        flags.contains_key(name) ==> flag_json(flags, name) == json_document(
            encode_utf8(flags[name]),
        ),
        !flags.contains_key(name) ==> flag_json(flags, name) is None,
        !flags.contains_key("params"@) ==> flag_params(flags) is None,
        flags.contains_key("params"@) ==> match json_at(encode_utf8(flags["params"@]), ""@) {
            None => flag_params(flags) is None,
            Some(json) => flag_params(flags) matches Some(p) && p.json == json && p.labels
                == json_at(encode_utf8(flags["params"@]), "/labels"@),
        },
{
    reveal_strlit("");
    assert(""@ + "/labels"@ =~= "/labels"@);
}

/// What the commands about a space as a whole stand for. Every command but the one that lists
/// the spaces takes the name of a space first, and a command of another name stands for
/// nothing.
pub proof fn law_space_commands(
    cmd: Text,
    flags: FlagsView,
    pos: Seq<Text>,
    number: Option<Text>,
    json: Option<Text>,
    params: Option<ParamsView>,
)
    ensures
        ({
            let says = |cmd: Text| command_request(cmd, flags, pos, number, json, params);
            let good = |cmd: Text, req: RequestView| says(cmd) == Ok::<RequestView, Text>(req);
            let bad = |cmd: Text, e: Text| says(cmd) == Err::<RequestView, Text>(e);
            let takes_space = cmd == "create"@ || cmd == "describe"@ || cmd == "dim"@ || cmd
                == "coord"@ || cmd == "set"@ || cmd == "clear"@ || cmd == "get"@ || cmd
                == "slice"@ || cmd == "rule"@ || cmd == "rules"@ || cmd == "materialize"@ || cmd
                == "analyze"@;
            &&& good("spaces"@, RequestView::Spaces)
            &&& takes_space && pos.len() == 0 ==> bad(cmd, "missing <space>\n\n"@ + USAGE@)
            &&& cmd != "spaces"@ && !takes_space ==> bad(
                cmd,
                "unknown command '"@ + cmd + "'\n\n"@ + USAGE@,
            )
            &&& pos.len() > 0 ==> {
                let space = pos[0];
                &&& good("create"@, RequestView::CreateSpace { space })
                &&& good("describe"@, RequestView::Describe { space })
                &&& good("rules"@, RequestView::Rules { space })
                &&& good(
                    "materialize"@,
                    RequestView::Materialize {
                        space,
                        rule: if flags.contains_key("rule"@) {
                            Some(flags["rule"@])
                        } else {
                            None
                        },
                    },
                )
                &&& pos.len() == 1 ==> bad("dim"@, "missing <name>"@) && bad(
                    "coord"@,
                    "missing <dim>"@,
                )
                &&& pos.len() == 2 ==> bad("coord"@, "missing <key>"@)
                &&& pos.len() > 1 ==> good(
                    "dim"@,
                    RequestView::AddDimension {
                        space,
                        name: pos[1],
                        kind: if flags.contains_key("kind"@) {
                            flags["kind"@]
                        } else {
                            "string"@
                        },
                    },
                )
                &&& pos.len() > 2 ==> good(
                    "coord"@,
                    RequestView::AddCoordinate { space, dimension: pos[1], key: pos[2] },
                )
            }
        }),
{
    lemma_known_apart();
}

proof fn lemma_known_apart()
    ensures
        "spaces"@ != "create"@ && "spaces"@ != "describe"@ && "spaces"@ != "dim"@ && "spaces"@
            != "coord"@ && "spaces"@ != "set"@ && "spaces"@ != "clear"@ && "spaces"@ != "get"@
            && "spaces"@ != "slice"@ && "spaces"@ != "rule"@ && "spaces"@ != "rules"@ && "spaces"@
            != "materialize"@ && "spaces"@ != "analyze"@,
        "create"@ != "describe"@ && "create"@ != "dim"@ && "create"@ != "coord"@ && "create"@
            != "set"@ && "create"@ != "clear"@ && "create"@ != "get"@ && "create"@ != "slice"@
            && "create"@ != "rule"@ && "create"@ != "rules"@ && "create"@ != "materialize"@
            && "create"@ != "analyze"@,
        "describe"@ != "dim"@ && "describe"@ != "coord"@ && "describe"@ != "set"@ && "describe"@
            != "clear"@ && "describe"@ != "get"@ && "describe"@ != "slice"@ && "describe"@
            != "rule"@ && "describe"@ != "rules"@ && "describe"@ != "materialize"@ && "describe"@
            != "analyze"@,
        "dim"@ != "coord"@ && "dim"@ != "set"@ && "dim"@ != "clear"@ && "dim"@ != "get"@ && "dim"@
            != "slice"@ && "dim"@ != "rule"@ && "dim"@ != "rules"@ && "dim"@ != "materialize"@
            && "dim"@ != "analyze"@,
        "coord"@ != "set"@ && "coord"@ != "clear"@ && "coord"@ != "get"@ && "coord"@ != "slice"@
            && "coord"@ != "rule"@ && "coord"@ != "rules"@ && "coord"@ != "materialize"@
            && "coord"@ != "analyze"@,
        "set"@ != "clear"@ && "set"@ != "get"@ && "set"@ != "slice"@ && "set"@ != "rule"@ && "set"@
            != "rules"@ && "set"@ != "materialize"@ && "set"@ != "analyze"@,
        "clear"@ != "get"@ && "clear"@ != "slice"@ && "clear"@ != "rule"@ && "clear"@ != "rules"@
            && "clear"@ != "materialize"@ && "clear"@ != "analyze"@,
        "get"@ != "slice"@ && "get"@ != "rule"@ && "get"@ != "rules"@ && "get"@ != "materialize"@
            && "get"@ != "analyze"@,
        "slice"@ != "rule"@ && "slice"@ != "rules"@ && "slice"@ != "materialize"@ && "slice"@
            != "analyze"@,
        "rule"@ != "rules"@ && "rule"@ != "materialize"@ && "rule"@ != "analyze"@,
        "rules"@ != "materialize"@ && "rules"@ != "analyze"@,
        "materialize"@ != "analyze"@,
{
    reveal_strlit("spaces");
    reveal_strlit("create");
    reveal_strlit("describe");
    reveal_strlit("dim");
    reveal_strlit("coord");
    reveal_strlit("set");
    reveal_strlit("clear");
    reveal_strlit("get");
    reveal_strlit("slice");
    reveal_strlit("rule");
    reveal_strlit("rules");
    reveal_strlit("materialize");
    reveal_strlit("analyze");
    assert("spaces"@[0] == 's' && "create"@[0] == 'c');
    assert("dim"@[0] == 'd' && "set"@[0] == 's' && "get"@[0] == 'g');
    assert("coord"@[1] == 'o' && "clear"@[1] == 'l' && "slice"@[0] == 's' && "rules"@[0] == 'r');
    assert("coord"@[0] == 'c' && "clear"@[0] == 'c');
    assert("spaces"@.len() == 6 && "create"@.len() == 6 && "describe"@.len() == 8 && "dim"@.len()
        == 3 && "coord"@.len() == 5 && "set"@.len() == 3 && "clear"@.len() == 5 && "get"@.len() == 3
        && "slice"@.len() == 5 && "rule"@.len() == 4 && "rules"@.len() == 5 && "materialize"@.len()
        == 11 && "analyze"@.len() == 7);
}

/// What the commands about cells stand for: those that name a point take it from `--at`, which
/// must be there, and to set one takes a value too; a slice takes what it fixes from `--fix`,
/// or fixes nothing.
pub proof fn law_cell_commands(
    flags: FlagsView,
    pos: Seq<Text>,
    number: Option<Text>,
    json: Option<Text>,
    params: Option<ParamsView>,
)
    requires
        pos.len() > 0,
    ensures
        ({
            let says = |cmd: Text| command_request(cmd, flags, pos, number, json, params);
            let good = |cmd: Text, req: RequestView| says(cmd) == Ok::<RequestView, Text>(req);
            let bad = |cmd: Text, e: Text| says(cmd) == Err::<RequestView, Text>(e);
            let space = pos[0];
            &&& !flags.contains_key("at"@) ==> bad("set"@, "missing --at"@) && bad(
                "clear"@,
                "missing --at"@,
            ) && bad("get"@, "missing --at"@)
            &&& flags.contains_key("at"@) ==> match spelled_coords(flags["at"@]) {
                Err(e) => bad("set"@, e) && bad("clear"@, e) && bad("get"@, e),
                Ok(coords) => {
                    &&& good("clear"@, RequestView::ClearCell { space, coords })
                    &&& good("get"@, RequestView::Get { space, coords })
                    &&& match flagged_value(flags, number, json) {
                        Err(e) => bad("set"@, e),
                        Ok(value) => good("set"@, RequestView::SetCell { space, coords, value }),
                    }
                },
            }
            &&& !flags.contains_key("fix"@) ==> good(
                "slice"@,
                RequestView::Slice { space, fixed: Map::empty() },
            )
            &&& flags.contains_key("fix"@) ==> match spelled_coords(flags["fix"@]) {
                Err(e) => bad("slice"@, e),
                Ok(fixed) => good("slice"@, RequestView::Slice { space, fixed }),
            }
        }),
{
    lemma_known_apart();
}

/// What the command that defines a rule stands for: `--id`, `--converter` and `--target` must
/// be there; `--source` is a tuple, empty where it is not there; `--params` must be JSON where
/// it is there.
pub proof fn law_rule_command(
    flags: FlagsView,
    pos: Seq<Text>,
    number: Option<Text>,
    json: Option<Text>,
    params: Option<ParamsView>,
)
    requires
        pos.len() > 0,
    ensures
        ({
            let says = command_request("rule"@, flags, pos, number, json, params);
            let source = if flags.contains_key("source"@) {
                spelled_coords(flags["source"@])
            } else {
                Ok(Map::empty())
            };
            let bad = |e: Text| says == Err::<RequestView, Text>(e);
            if !flags.contains_key("id"@) {
                bad("missing --id"@)
            } else if source is Err {
                bad(source->Err_0)
            } else if !flags.contains_key("converter"@) {
                bad("missing --converter"@)
            } else if !flags.contains_key("target"@) {
                bad("missing --target"@)
            } else if flags.contains_key("params"@) && params is None {
                bad("--params wants JSON"@)
            } else {
                says == Ok::<RequestView, Text>(
                    RequestView::DefineRule {
                        space: pos[0],
                        rule: RuleView {
                            id: flags["id"@],
                            source: source->Ok_0,
                            converter: flags["converter"@],
                            target_representation: flags["target"@],
                            params: if flags.contains_key("params"@) {
                                Some((params->0).json)
                            } else {
                                None
                            },
                        },
                    },
                )
            }
        }),
{
    lemma_known_apart();
}

/// What the command that analyzes stands for: `--op` must be there; `--fix` is a tuple, empty
/// where it is not there; `--params` must be JSON where it is there.
pub proof fn law_analyze_command(
    flags: FlagsView,
    pos: Seq<Text>,
    number: Option<Text>,
    json: Option<Text>,
    params: Option<ParamsView>,
)
    requires
        pos.len() > 0,
    ensures
        ({
            let says = command_request("analyze"@, flags, pos, number, json, params);
            let fixed = if flags.contains_key("fix"@) {
                spelled_coords(flags["fix"@])
            } else {
                Ok(Map::empty())
            };
            let bad = |e: Text| says == Err::<RequestView, Text>(e);
            if !flags.contains_key("op"@) {
                bad("missing --op"@)
            } else if fixed is Err {
                bad(fixed->Err_0)
            } else if flags.contains_key("params"@) && params is None {
                bad("--params wants JSON"@)
            } else {
                says == Ok::<RequestView, Text>(
                    RequestView::Analyze {
                        space: pos[0],
                        op: flags["op"@],
                        fixed: fixed->Ok_0,
                        params: if flags.contains_key("params"@) {
                            params
                        } else {
                            None
                        },
                    },
                )
            }
        }),
{
    lemma_known_apart();
}

} // verus!
