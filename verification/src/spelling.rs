//! What is spelled is read back: links and coordinate tuples.

use vstd::prelude::*;

use crate::addressing::{free_of, pair, pairs};
use crate::cli::{comma_parts, coords_from, spelled_coords};
use crate::sorted_map::{key_order, lemma_key_order_lists};
use crate::space::{parsed_ref, ref_uri, CoordsView, RefView};
use crate::text::{join, lemma_first_at, lemma_first_at_is, split_once, Text};

verus! {

/// A link that was read is spelled as it was.
pub proof fn law_ref_respelled(s: Text)
    requires
        parsed_ref(s) is Some,
    ensures
        ref_uri(parsed_ref(s)->0) == s,
{
    reveal_strlit(":");
    lemma_first_at(s, ':');
    assert(ref_uri(parsed_ref(s)->0) =~= s);
}

pub(crate) proof fn lemma_split_at(a: Text, c: char, b: Text)
    requires
        free_of(a, c),
    ensures
        split_once(a + seq![c] + b, c) == Some((a, b)),
{
    let s = a + seq![c] + b;
    assert forall|j: int| 0 <= j < a.len() implies #[trigger] s[j] != c by {
        assert(s[j] == a[j]);
    }
    lemma_first_at_is(s, c, a.len() as int);
    assert(s.take(a.len() as int) =~= a);
    assert(s.skip(a.len() as int + 1) =~= b);
}

/// A spelled link is read back, provided that both sides are there, that the scheme
/// holds no colon, and that there is nothing more to the link than its two sides.
pub proof fn law_ref_reread(r: RefView)
    requires
        r.scheme.len() > 0,
        r.address.len() > 0,
        free_of(r.scheme, ':'),
        r.content_hint is None,
        r.snapshot_cid is None,
    ensures
        parsed_ref(ref_uri(r)) == Some(r),
{
    reveal_strlit(":");
    assert(":"@ =~= seq![':']);
    lemma_split_at(r.scheme, ':', r.address);
}

proof fn lemma_join_first(parts: Seq<Text>, sep: Text)
    requires
        parts.len() > 1,
    ensures
        join(parts, sep) == parts[0] + sep + join(parts.drop_first(), sep),
    decreases parts.len(),
{
    let rest = parts.drop_first();
    if parts.len() > 2 {
        let head = parts.drop_last();
        lemma_join_first(head, sep);
        assert(head.drop_first() =~= rest.drop_last());
        assert(rest.last() == parts.last());
        assert(join(parts, sep) =~= parts[0] + sep + join(rest, sep));
    } else {
        assert(join(parts.drop_last(), sep) == parts[0]);
        assert(join(rest, sep) == parts[1]);
        assert(join(parts, sep) =~= parts[0] + sep + join(rest, sep));
    }
}

proof fn lemma_comma_parts(parts: Seq<Text>)
    requires
        parts.len() > 0,
        forall|i: int| 0 <= i < parts.len() ==> free_of(#[trigger] parts[i], ','),
    ensures
        comma_parts(join(parts, ","@)) == parts,
    decreases parts.len(),
{
    let s = join(parts, ","@);
    reveal_strlit(",");
    assert(","@ =~= seq![',']);
    if parts.len() == 1 {
        lemma_first_at(s, ',');
        assert(comma_parts(s) =~= parts);
    } else {
        let rest = parts.drop_first();
        lemma_join_first(parts, ","@);
        lemma_split_at(parts[0], ',', join(rest, ","@));
        assert forall|i: int| 0 <= i < rest.len() implies free_of(#[trigger] rest[i], ',') by {
            assert(rest[i] == parts[i + 1]);
        }
        lemma_comma_parts(rest);
        assert(comma_parts(s) =~= parts);
    }
}

/// A tuple that can be spelled as `dim=key,dim2=key2`: no side is empty, no dimension
/// holds an equals sign, and no side holds a comma.
pub open spec fn spellable(coords: CoordsView) -> bool {
    forall|d: Text| #[trigger]
        coords.contains_key(d) ==> d.len() > 0 && coords[d].len() > 0 && free_of(d, '=')
            && free_of(d, ',') && free_of(coords[d], ',')
}

proof fn lemma_coords_from(coords: CoordsView, i: int)
    requires
        coords.dom().finite(),
        spellable(coords),
        0 <= i <= key_order(coords.dom()).len(),
    ensures
        coords_from(
            pairs(coords).skip(i),
            coords.restrict(key_order(coords.dom()).take(i).to_set()),
        ) == Ok::<CoordsView, Text>(coords),
    decreases key_order(coords.dom()).len() - i,
{
    let order = key_order(coords.dom());
    let rest = pairs(coords).skip(i);
    let so_far = coords.restrict(order.take(i).to_set());
    lemma_key_order_lists(coords.dom());
    if i == order.len() {
        assert(order.take(i) =~= order);
        assert(so_far =~= coords) by {
            assert forall|d: Text| #[trigger] coords.contains_key(d) implies order.to_set().contains(
                d,
            ) by {
                assert(coords.dom().contains(d));
                assert(order.contains(d));
            }
        }
    } else {
        let d = order[i];
        assert(order.contains(d));
        assert(coords.contains_key(d));
        reveal_strlit("=");
        assert("="@ =~= seq!['=']);
        lemma_split_at(d, '=', coords[d]);
        assert(rest[0] == pair(coords, d));
        assert(rest.drop_first() =~= pairs(coords).skip(i + 1));
        let further = coords.restrict(order.take(i + 1).to_set());
        assert(order.take(i + 1) =~= order.take(i).push(d));
        assert forall|x: Text| #[trigger] order.take(i + 1).to_set().contains(x) <==> (
        order.take(i).to_set().contains(x) || x == d) by {
            if order.take(i).contains(x) {
                let j = choose|j: int| 0 <= j < i && order.take(i)[j] == x;
                assert(order.take(i + 1)[j] == x);
            }
            assert(order.take(i + 1)[i] == d);
        }
        assert(so_far.insert(d, coords[d]) =~= further);
        lemma_coords_from(coords, i + 1);
    }
}

/// A spelled tuple is read back.
pub proof fn law_coords_reread(coords: CoordsView)
    requires
        coords.dom().finite(),
        spellable(coords),
    ensures
        spelled_coords(join(pairs(coords), ","@)) == Ok::<CoordsView, Text>(coords),
{
    let parts = pairs(coords);
    let order = key_order(coords.dom());
    lemma_key_order_lists(coords.dom());
    lemma_coords_from(coords, 0);
    assert(parts.skip(0) =~= parts);
    assert(coords.restrict(order.take(0).to_set()) =~= Map::<Text, Text>::empty());
    if parts.len() == 0 {
        let s = join(parts, ","@);
        assert(s =~= Seq::<char>::empty());
        assert(comma_parts(s) =~= seq![s]);
        assert(comma_parts(s).drop_first() =~= parts);
    } else {
        assert forall|i: int| 0 <= i < parts.len() implies free_of(#[trigger] parts[i], ',') by {
            let d = order[i];
            assert(order.contains(d));
            assert(coords.contains_key(d));
            let p = pair(coords, d);
            reveal_strlit("=");
            assert forall|j: int| 0 <= j < p.len() implies #[trigger] p[j] != ',' by {
                if j < d.len() {
                    assert(p[j] == d[j]);
                } else if j > d.len() {
                    assert(p[j] == coords[d][j - d.len() - 1]);
                }
            }
        }
        lemma_comma_parts(parts);
    }
}

} // verus!
