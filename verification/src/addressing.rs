//! What the canonical key of an address tells of the address.

use vstd::prelude::*;

use crate::sorted_map::{inserted, key_order, lemma_key_order_insert, lemma_key_order_lists};
use crate::space::{canonical_key, CoordsView};
use crate::text::{join, lemma_first_at_is, Text};

verus! {

/// The pair that a dimension contributes to a canonical key.
pub open spec fn pair(coords: CoordsView, d: Text) -> Text {
    d + "="@ + coords[d]
}

/// The pairs of a canonical key, in order.
pub open spec fn pairs(coords: CoordsView) -> Seq<Text> {
    key_order(coords.dom()).map_values(|d: Text| pair(coords, d))
}

proof fn lemma_key_pairs(coords: CoordsView)
    ensures
        canonical_key(coords) == join(pairs(coords), "\u{1f}"@),
{
    assert(pairs(coords) =~= key_order(coords.dom()).map_values(
        |d: Text| d + "="@ + coords[d],
    ));
}

pub(crate) proof fn lemma_cancel_prefix(p: Text, a: Text, b: Text)
    requires
        p + a == p + b,
    ensures
        a == b,
{
    assert(a =~= (p + a).skip(p.len() as int));
    assert(b =~= (p + b).skip(p.len() as int));
}

pub(crate) proof fn lemma_cancel_suffix(a: Text, b: Text, s: Text)
    requires
        a + s == b + s,
    ensures
        a == b,
{
    assert((a + s).len() == (b + s).len());
    assert(a =~= (a + s).take(a.len() as int));
    assert(b =~= (b + s).take(b.len() as int));
}

proof fn lemma_join_update(parts: Seq<Text>, sep: Text, i: int, q: Text)
    requires
        0 <= i < parts.len(),
        join(parts, sep) == join(parts.update(i, q), sep),
    ensures
        parts[i] == q,
    decreases parts.len(),
{
    let other = parts.update(i, q);
    if parts.len() > 1 {
        let head = parts.drop_last();
        if i == parts.len() - 1 {
            assert(other.drop_last() =~= head);
            lemma_cancel_prefix(join(head, sep) + sep, parts.last(), q);
        } else {
            assert(other.drop_last() =~= head.update(i, q));
            assert(other.last() == parts.last());
            lemma_cancel_suffix(
                join(head, sep) + sep,
                join(head.update(i, q), sep) + sep,
                parts.last(),
            );
            lemma_cancel_suffix(join(head, sep), join(head.update(i, q), sep), sep);
            lemma_join_update(head, sep, i, q);
        }
    }
}

proof fn lemma_join_inserted(
    keys: Seq<Text>,
    k: Text,
    f: spec_fn(Text) -> Text,
    sep: Text,
)
    ensures
        join(inserted(keys, k).map_values(f), sep).len() >= join(keys.map_values(f), sep).len()
            + f(k).len(),
    decreases keys.len(),
{
    let all = inserted(keys, k).map_values(f);
    let old_parts = keys.map_values(f);
    if keys.len() == 0 {
        assert(all =~= seq![f(k)]);
    } else if crate::text::text_lt(keys.last(), k) {
        assert(all =~= old_parts.push(f(k)));
        assert(all.drop_last() =~= old_parts);
    } else {
        let rest = keys.drop_last();
        lemma_join_inserted(rest, k, f, sep);
        let head = inserted(rest, k).map_values(f);
        assert(all =~= head.push(f(keys.last())));
        assert(all.drop_last() =~= head);
        assert(old_parts.drop_last() =~= rest.map_values(f));
        assert(old_parts.last() == f(keys.last()));
    }
}

/// Moving an address along one dimension changes its canonical key, whatever the
/// texts in it: so a plane never takes the place of another at the same point.
pub proof fn law_planes_apart(coords: CoordsView, d: Text, x: Text)
    requires
        coords.dom().finite(),
        !(coords.contains_key(d) && coords[d] == x),
    ensures
        canonical_key(coords.insert(d, x)) != canonical_key(coords),
{
    let moved = coords.insert(d, x);
    let sep = "\u{1f}"@;
    lemma_key_pairs(coords);
    lemma_key_pairs(moved);
    if canonical_key(moved) == canonical_key(coords) {
        if coords.contains_key(d) {
            assert(moved.dom() =~= coords.dom());
            let order = key_order(coords.dom());
            lemma_key_order_lists(coords.dom());
            assert(order.contains(d));
            let i = choose|i: int| 0 <= i < order.len() && order[i] == d;
            assert forall|j: int| 0 <= j < order.len() && j != i implies order[j] != d by {
                crate::text::lemma_text_lt_irreflexive(d);
            }
            assert(pairs(moved) =~= pairs(coords).update(i, pair(moved, d)));
            lemma_join_update(pairs(coords), sep, i, pair(moved, d));
            assert(pair(coords, d) == pair(moved, d));
            lemma_cancel_prefix(d + "="@, coords[d], x);
        } else {
            assert(moved.dom() =~= coords.dom().insert(d));
            lemma_key_order_insert(coords.dom(), d);
            let f = |k: Text| pair(moved, k);
            let order = key_order(coords.dom());
            lemma_key_order_lists(coords.dom());
            assert forall|i: int| 0 <= i < order.len() implies pair(moved, #[trigger] order[i])
                == pair(coords, order[i]) by {
                assert(order.contains(order[i]));
                assert(coords.dom().contains(order[i]));
            }
            assert(pairs(coords) =~= order.map_values(f));
            lemma_join_inserted(order, d, f, sep);
            reveal_strlit("=");
            assert(f(d).len() > 0);
        }
    }
}

/// A character does not occur in a text.
pub open spec fn free_of(s: Text, c: char) -> bool {
    forall|i: int| 0 <= i < s.len() ==> #[trigger] s[i] != c
}

/// An address in which the separators of canonical keys stand for nothing else: no
/// dimension holds an equals sign or a unit separator, no coordinate a unit
/// separator.
pub open spec fn separable(coords: CoordsView) -> bool {
    forall|d: Text| #[trigger]
        coords.contains_key(d) ==> free_of(d, '=') && free_of(d, '\u{1f}') && free_of(
            coords[d],
            '\u{1f}',
        )
}

pub(crate) proof fn lemma_join_injective(a: Seq<Text>, b: Seq<Text>, c: char)
    requires
        forall|i: int| 0 <= i < a.len() ==> (#[trigger] a[i]).len() > 0 && free_of(a[i], c),
        forall|i: int| 0 <= i < b.len() ==> (#[trigger] b[i]).len() > 0 && free_of(b[i], c),
        join(a, seq![c]) == join(b, seq![c]),
    ensures
        a == b,
    decreases a.len(),
{
    let sep = seq![c];
    if a.len() == 0 {
        if b.len() > 0 {
            lemma_join_nonempty(b, sep);
        }
        assert(a =~= b);
    } else if b.len() == 0 {
        lemma_join_nonempty(a, sep);
    } else {
        let ja = join(a, sep);
        let jb = join(b, sep);
        let la = a.last();
        let lb = b.last();
        assert(a[a.len() - 1] == la && b[b.len() - 1] == lb);
        let pa = if a.len() > 1 {
            join(a.drop_last(), sep) + sep
        } else {
            Seq::empty()
        };
        let pb = if b.len() > 1 {
            join(b.drop_last(), sep) + sep
        } else {
            Seq::empty()
        };
        assert(ja =~= pa + la);
        assert(jb =~= pb + lb);
        if la.len() < lb.len() {
            assert(pa.len() > 0);
            assert(ja[pa.len() - 1] == c);
            assert(jb[pa.len() - 1] == lb[pa.len() - 1 - pb.len()]);
        } else if lb.len() < la.len() {
            assert(pb.len() > 0);
            assert(jb[pb.len() - 1] == c);
            assert(ja[pb.len() - 1] == la[pb.len() - 1 - pa.len()]);
        }
        assert(pa.len() == pb.len());
        assert(pa =~= ja.take(pa.len() as int));
        assert(pb =~= jb.take(pb.len() as int));
        assert(la =~= ja.skip(pa.len() as int));
        assert(lb =~= jb.skip(pb.len() as int));
        if a.len() > 1 && b.len() > 1 {
            let ra = a.drop_last();
            let rb = b.drop_last();
            lemma_cancel_suffix(join(ra, sep), join(rb, sep), sep);
            assert forall|i: int| 0 <= i < ra.len() implies (#[trigger] ra[i]).len() > 0
                && free_of(ra[i], c) by {
                assert(ra[i] == a[i]);
            }
            assert forall|i: int| 0 <= i < rb.len() implies (#[trigger] rb[i]).len() > 0
                && free_of(rb[i], c) by {
                assert(rb[i] == b[i]);
            }
            lemma_join_injective(ra, rb, c);
            assert(a =~= ra.push(la));
            assert(b =~= rb.push(lb));
        } else {
            assert(a.len() == 1 && b.len() == 1);
            assert(a =~= b);
        }
    }
}

proof fn lemma_join_nonempty(parts: Seq<Text>, sep: Text)
    requires
        parts.len() > 0,
        parts[0].len() > 0,
    ensures
        join(parts, sep).len() > 0,
    decreases parts.len(),
{
    if parts.len() > 1 {
        lemma_join_nonempty(parts.drop_last(), sep);
    }
}

proof fn lemma_pair_injective(a: CoordsView, b: CoordsView, d: Text, e: Text)
    requires
        free_of(d, '='),
        free_of(e, '='),
        pair(a, d) == pair(b, e),
    ensures
        d == e,
        a[d] == b[e],
{
    reveal_strlit("=");
    let p = pair(a, d);
    let q = pair(b, e);
    assert(p[d.len() as int] == '=');
    assert forall|i: int| 0 <= i < d.len() implies #[trigger] p[i] != '=' by {
        assert(p[i] == d[i]);
    }
    lemma_first_at_is(p, '=', d.len() as int);
    assert(q[e.len() as int] == '=');
    assert forall|i: int| 0 <= i < e.len() implies #[trigger] q[i] != '=' by {
        assert(q[i] == e[i]);
    }
    lemma_first_at_is(q, '=', e.len() as int);
    assert(d =~= p.take(d.len() as int));
    assert(e =~= q.take(e.len() as int));
    lemma_cancel_prefix(d + "="@, a[d], b[e]);
}

/// Two different addresses have different canonical keys, as long as the separators
/// of the key stand for nothing else in them.
pub proof fn law_key_injective(a: CoordsView, b: CoordsView)
    requires
        a.dom().finite(),
        b.dom().finite(),
        separable(a),
        separable(b),
        canonical_key(a) == canonical_key(b),
    ensures
        a == b,
{
    lemma_key_pairs(a);
    lemma_key_pairs(b);
    lemma_key_order_lists(a.dom());
    lemma_key_order_lists(b.dom());
    let oa = key_order(a.dom());
    let ob = key_order(b.dom());
    reveal_strlit("\u{1f}");
    reveal_strlit("=");
    assert("\u{1f}"@ =~= seq!['\u{1f}']);
    assert forall|i: int| 0 <= i < pairs(a).len() implies (#[trigger] pairs(a)[i]).len() > 0
        && free_of(pairs(a)[i], '\u{1f}') by {
        assert(oa.contains(oa[i]));
        assert(a.contains_key(oa[i]));
        lemma_pair_free(a, oa[i]);
    }
    assert forall|i: int| 0 <= i < pairs(b).len() implies (#[trigger] pairs(b)[i]).len() > 0
        && free_of(pairs(b)[i], '\u{1f}') by {
        assert(ob.contains(ob[i]));
        assert(b.contains_key(ob[i]));
        lemma_pair_free(b, ob[i]);
    }
    lemma_join_injective(pairs(a), pairs(b), '\u{1f}');
    assert forall|i: int| 0 <= i < oa.len() implies oa[i] == ob[i] && a[oa[i]] == b[ob[i]] by {
        assert(oa.contains(oa[i]) && ob.contains(ob[i]));
        assert(a.contains_key(oa[i]) && b.contains_key(ob[i]));
        assert(pairs(a)[i] == pairs(b)[i]);
        lemma_pair_injective(a, b, oa[i], ob[i]);
    }
    assert(oa.len() == pairs(a).len() && ob.len() == pairs(b).len());
    assert(oa =~= ob);
    assert forall|d: Text| #[trigger] a.contains_key(d) implies a[d] == b[d] by {
        assert(oa.contains(d));
        let i = choose|i: int| 0 <= i < oa.len() && oa[i] == d;
        assert(a[oa[i]] == b[ob[i]]);
    }
    assert(a =~= b);
}

proof fn lemma_pair_free(coords: CoordsView, d: Text)
    requires
        coords.contains_key(d),
        separable(coords),
    ensures
        pair(coords, d).len() > 0,
        free_of(pair(coords, d), '\u{1f}'),
{
    reveal_strlit("=");
    let p = pair(coords, d);
    assert forall|i: int| 0 <= i < p.len() implies #[trigger] p[i] != '\u{1f}' by {
        if i < d.len() {
            assert(p[i] == d[i]);
        } else if i > d.len() {
            assert(p[i] == coords[d][i - d.len() - 1]);
        }
    }
}

} // verus!
