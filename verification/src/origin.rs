//! Where things come from: the stamp of the op that brought them, or the birth of the
//! space; and the order of coordinates by where they come from.

use vstd::prelude::*;

use crate::sorted_map::{key_order, lemma_key_order_lists, views, Duplicate, SortedMap};
use crate::text::{
    lemma_text_lt_irreflexive, lemma_text_lt_total, lemma_text_lt_transitive, sorts_before,
    text_lt, Text,
};

verus! {

/// The stamp of an op: its Lamport time, and its writer as tie-break.
#[derive(Debug, Clone, PartialEq)]
pub struct Stamp {
    pub lamport: u64,
    pub writer: String,
}

/// What a `Stamp` stands for.
#[verifier::ext_equal]
pub struct StampView {
    pub lamport: u64,
    pub writer: Text,
}

impl View for Stamp {
    type V = StampView;

    open spec fn view(&self) -> StampView {
        StampView { lamport: self.lamport, writer: self.writer@ }
    }
}

impl Duplicate for Stamp {
    fn duplicate(&self) -> (copy: Self) {
        Stamp { lamport: self.lamport, writer: self.writer.clone() }
    }
}

/// Does a stamp beat another: a later Lamport time, or the same one and a greater
/// writer?
pub open spec fn stamp_beats(a: StampView, b: StampView) -> bool {
    a.lamport > b.lamport || (a.lamport == b.lamport && text_lt(b.writer, a.writer))
}

/// No stamp beats itself.
pub proof fn lemma_beats_irreflexive(a: StampView)
    ensures
        !stamp_beats(a, a),
{
    lemma_text_lt_irreflexive(a.writer);
}

/// Beating is transitive.
pub proof fn lemma_beats_transitive(a: StampView, b: StampView, c: StampView)
    requires
        stamp_beats(a, b),
        stamp_beats(b, c),
    ensures
        stamp_beats(a, c),
{
    if a.lamport == b.lamport && b.lamport == c.lamport {
        lemma_text_lt_transitive(c.writer, b.writer, a.writer);
    }
}

/// Of two different stamps one beats the other.
pub proof fn lemma_beats_total(a: StampView, b: StampView)
    ensures
        stamp_beats(a, b) || stamp_beats(b, a) || a == b,
{
    lemma_text_lt_total(a.writer, b.writer);
}

impl Stamp {
    /// Does this stamp beat another?
    pub fn beats(&self, other: &Stamp) -> (r: bool)
        ensures
            r == stamp_beats(self@, other@),
    {
        self.lamport > other.lamport || (self.lamport == other.lamport && sorts_before(
            other.writer.as_str(),
            self.writer.as_str(),
        ))
    }
}

/// Where a kind or a coordinate comes from.
#[derive(Debug, Clone, PartialEq)]
pub enum Origin {
    /// It is there from the birth of the space.
    Birth,
    /// An op brought it.
    Op { stamp: Stamp },
}

/// What an `Origin` stands for.
#[verifier::ext_equal]
pub enum OriginView {
    Birth,
    Op { stamp: StampView },
}

impl View for Origin {
    type V = OriginView;

    open spec fn view(&self) -> OriginView {
        match *self {
            Origin::Birth => OriginView::Birth,
            Origin::Op { stamp } => OriginView::Op { stamp: stamp@ },
        }
    }
}

impl Duplicate for Origin {
    fn duplicate(&self) -> (copy: Self) {
        match self {
            Origin::Birth => Origin::Birth,
            Origin::Op { stamp } => Origin::Op { stamp: stamp.duplicate() },
        }
    }
}

/// Does an origin come before another? Birth comes first, then the lesser stamp.
pub open spec fn earlier(a: OriginView, b: OriginView) -> bool {
    match b {
        OriginView::Birth => false,
        OriginView::Op { stamp: later } => match a {
            OriginView::Birth => true,
            OriginView::Op { stamp } => stamp_beats(later, stamp),
        },
    }
}

/// No origin comes before itself.
pub proof fn lemma_earlier_irreflexive(a: OriginView)
    ensures
        !earlier(a, a),
{
    if let OriginView::Op { stamp } = a {
        lemma_beats_irreflexive(stamp);
    }
}

/// Coming before is transitive.
pub proof fn lemma_earlier_transitive(a: OriginView, b: OriginView, c: OriginView)
    requires
        earlier(a, b),
        earlier(b, c),
    ensures
        earlier(a, c),
{
    if a is Op {
        lemma_beats_transitive(c->stamp, b->stamp, a->stamp);
    }
}

/// Of two different origins one comes before the other.
pub proof fn lemma_earlier_total(a: OriginView, b: OriginView)
    ensures
        earlier(a, b) || earlier(b, a) || a == b,
{
    if a is Op && b is Op {
        lemma_beats_total(a->stamp, b->stamp);
    }
}

impl Origin {
    /// Does this origin come before another?
    pub fn is_earlier(&self, other: &Origin) -> (r: bool)
        ensures
            r == earlier(self@, other@),
    {
        match other {
            Origin::Birth => false,
            Origin::Op { stamp: later } => match self {
                Origin::Birth => true,
                Origin::Op { stamp } => later.beats(stamp),
            },
        }
    }
}

/// Does a coordinate stand before another: by where it comes from, and by its name
/// where both come from the same op?
pub open spec fn stands_before(origins: Map<Text, OriginView>, x: Text, y: Text) -> bool {
    earlier(origins[x], origins[y]) || (origins[x] == origins[y] && text_lt(x, y))
}

/// `coords` lists exactly the coordinates that come from somewhere, in order.
pub open spec fn lists_in_order(coords: Seq<Text>, origins: Map<Text, OriginView>) -> bool {
    &&& forall|i: int, j: int|
        0 <= i < j < coords.len() ==> stands_before(
            origins,
            #[trigger] coords[i],
            #[trigger] coords[j],
        )
    &&& forall|x: Text| #[trigger] origins.contains_key(x) <==> coords.contains(x)
}

/// The coordinates that come from somewhere, in order.
pub open spec fn listing(origins: Map<Text, OriginView>) -> Seq<Text> {
    choose|coords: Seq<Text>| lists_in_order(coords, origins)
}

/// No coordinate stands before itself.
pub proof fn lemma_stands_irreflexive(origins: Map<Text, OriginView>, x: Text)
    ensures
        !stands_before(origins, x, x),
{
    lemma_earlier_irreflexive(origins[x]);
    lemma_text_lt_irreflexive(x);
}

/// Standing before is transitive.
pub proof fn lemma_stands_transitive(origins: Map<Text, OriginView>, x: Text, y: Text, z: Text)
    requires
        stands_before(origins, x, y),
        stands_before(origins, y, z),
    ensures
        stands_before(origins, x, z),
{
    if earlier(origins[x], origins[y]) && earlier(origins[y], origins[z]) {
        lemma_earlier_transitive(origins[x], origins[y], origins[z]);
    } else if origins[x] == origins[y] && origins[y] == origins[z] {
        lemma_text_lt_transitive(x, y, z);
    }
}

proof fn lemma_in_order_drop_last(coords: Seq<Text>, origins: Map<Text, OriginView>)
    requires
        lists_in_order(coords, origins),
        coords.len() > 0,
    ensures
        lists_in_order(coords.drop_last(), origins.remove(coords.last())),
{
    let last = coords.last();
    let rest = coords.drop_last();
    let fewer = origins.remove(last);
    assert forall|i: int| 0 <= i < rest.len() implies #[trigger] rest[i] != last by {
        assert(stands_before(origins, coords[i], coords[coords.len() - 1]));
        lemma_stands_irreflexive(origins, last);
    }
    assert forall|x: Text| #[trigger] fewer.contains_key(x) <==> rest.contains(x) by {
        if fewer.contains_key(x) {
            assert(origins.contains_key(x));
            let i = choose|i: int| 0 <= i < coords.len() && coords[i] == x;
            assert(rest[i] == x);
        }
        if rest.contains(x) {
            let i = choose|i: int| 0 <= i < rest.len() && rest[i] == x;
            assert(coords[i] == x);
            assert(coords.contains(x));
            assert(origins.contains_key(x));
        }
    }
    assert forall|i: int, j: int| 0 <= i < j < rest.len() implies stands_before(
        fewer,
        #[trigger] rest[i],
        #[trigger] rest[j],
    ) by {
        assert(stands_before(origins, coords[i], coords[j]));
    }
}

/// Only one sequence lists given origins in order.
pub proof fn lemma_in_order_unique(a: Seq<Text>, b: Seq<Text>, origins: Map<Text, OriginView>)
    requires
        lists_in_order(a, origins),
        lists_in_order(b, origins),
    ensures
        a == b,
    decreases a.len(),
{
    if a.len() == 0 {
        if b.len() > 0 {
            assert(b.contains(b[0]));
            assert(origins.contains_key(b[0]));
            assert(a.contains(b[0]));
        }
        assert(a =~= b);
    } else {
        assert(a.contains(a.last()));
        assert(origins.contains_key(a.last()));
        assert(b.contains(a.last()));
        let j = choose|j: int| 0 <= j < b.len() && b[j] == a.last();
        assert(b.contains(b.last()));
        assert(origins.contains_key(b.last()));
        assert(a.contains(b.last()));
        let i = choose|i: int| 0 <= i < a.len() && a[i] == b.last();
        if j < b.len() - 1 {
            assert(stands_before(origins, b[j], b[b.len() - 1]));
            if i < a.len() - 1 {
                assert(stands_before(origins, a[i], a[a.len() - 1]));
                lemma_stands_transitive(origins, a.last(), b.last(), a.last());
            }
            lemma_stands_irreflexive(origins, a.last());
        }
        lemma_in_order_drop_last(a, origins);
        lemma_in_order_drop_last(b, origins);
        lemma_in_order_unique(a.drop_last(), b.drop_last(), origins.remove(a.last()));
        assert(a =~= a.drop_last().push(a.last()));
        assert(b =~= b.drop_last().push(b.last()));
    }
}

/// What lists origins in order is their listing.
pub proof fn lemma_listing(coords: Seq<Text>, origins: Map<Text, OriginView>)
    requires
        lists_in_order(coords, origins),
    ensures
        listing(origins) == coords,
{
    lemma_in_order_unique(coords, listing(origins), origins);
}

/// `coords` with `x` put in before the first one from the end that it stands before.
spec fn put_in(coords: Seq<Text>, origins: Map<Text, OriginView>, x: Text) -> Seq<Text>
    decreases coords.len(),
{
    if coords.len() == 0 || stands_before(origins, coords.last(), x) {
        coords.push(x)
    } else {
        put_in(coords.drop_last(), origins, x).push(coords.last())
    }
}

spec fn in_order(coords: Seq<Text>, origins: Map<Text, OriginView>) -> bool {
    forall|i: int, j: int|
        0 <= i < j < coords.len() ==> stands_before(
            origins,
            #[trigger] coords[i],
            #[trigger] coords[j],
        )
}

proof fn lemma_put_in(coords: Seq<Text>, origins: Map<Text, OriginView>, x: Text)
    requires
        in_order(coords, origins),
        !coords.contains(x),
    ensures
        in_order(put_in(coords, origins, x), origins),
        forall|y: Text| #[trigger]
            put_in(coords, origins, x).contains(y) <==> coords.contains(y) || y == x,
    decreases coords.len(),
{
    let r = put_in(coords, origins, x);
    if coords.len() == 0 || stands_before(origins, coords.last(), x) {
        assert forall|i: int, j: int| 0 <= i < j < r.len() implies stands_before(
            origins,
            #[trigger] r[i],
            #[trigger] r[j],
        ) by {
            if j == coords.len() && i < coords.len() - 1 {
                assert(stands_before(origins, coords[i], coords[coords.len() - 1]));
                lemma_stands_transitive(origins, coords[i], coords.last(), x);
            }
        }
        assert forall|y: Text| #[trigger] r.contains(y) <==> coords.contains(y) || y == x by {
            assert(r[coords.len() as int] == x);
            if coords.contains(y) {
                let i = choose|i: int| 0 <= i < coords.len() && coords[i] == y;
                assert(r[i] == y);
            }
        }
    } else {
        let rest = coords.drop_last();
        let last = coords.last();
        assert(coords.contains(last));
        assert forall|y: Text| #[trigger] rest.contains(y) implies coords.contains(y) by {
            let i = choose|i: int| 0 <= i < rest.len() && rest[i] == y;
            assert(coords[i] == y);
        }
        lemma_put_in(rest, origins, x);
        let inner = put_in(rest, origins, x);
        lemma_earlier_total(origins[x], origins[last]);
        lemma_text_lt_total(x, last);
        assert(stands_before(origins, x, last));
        assert forall|i: int, j: int| 0 <= i < j < r.len() implies stands_before(
            origins,
            #[trigger] r[i],
            #[trigger] r[j],
        ) by {
            if j == inner.len() {
                assert(inner.contains(inner[i]));
                if inner[i] != x {
                    assert(rest.contains(inner[i]));
                    let p = choose|p: int| 0 <= p < rest.len() && rest[p] == inner[i];
                    assert(stands_before(origins, coords[p], coords[coords.len() - 1]));
                }
            } else {
                assert(stands_before(origins, inner[i], inner[j]));
            }
        }
        assert forall|y: Text| #[trigger] r.contains(y) <==> coords.contains(y) || y == x by {
            assert(r[inner.len() as int] == last);
            if r.contains(y) {
                let i = choose|i: int| 0 <= i < r.len() && r[i] == y;
                if i < inner.len() {
                    assert(inner.contains(inner[i]));
                }
            }
            if coords.contains(y) && y != last {
                let i = choose|i: int| 0 <= i < coords.len() && coords[i] == y;
                assert(rest[i] == y);
            }
            if inner.contains(y) {
                let i = choose|i: int| 0 <= i < inner.len() && inner[i] == y;
                assert(r[i] == y);
            }
        }
    }
}

/// Finitely many coordinates can be listed.
pub proof fn lemma_listing_lists(origins: Map<Text, OriginView>)
    requires
        origins.dom().finite(),
    ensures
        lists_in_order(listing(origins), origins),
    decreases origins.dom().len(),
{
    if origins.dom().len() == 0 {
        assert(lists_in_order(Seq::<Text>::empty(), origins));
    } else {
        let x = origins.dom().choose();
        let rest = origins.remove(x);
        assert(rest.dom() =~= origins.dom().remove(x));
        lemma_listing_lists(rest);
        let coords = listing(rest);
        assert(!rest.contains_key(x));
        assert(!coords.contains(x));
        assert forall|i: int, j: int| 0 <= i < j < coords.len() implies stands_before(
            origins,
            #[trigger] coords[i],
            #[trigger] coords[j],
        ) by {
            assert(stands_before(rest, coords[i], coords[j]));
            assert(coords.contains(coords[i]) && coords.contains(coords[j]));
            assert(rest.contains_key(coords[i]) && rest.contains_key(coords[j]));
        }
        lemma_put_in(coords, origins, x);
        let all = put_in(coords, origins, x);
        assert forall|y: Text| #[trigger] origins.contains_key(y) <==> all.contains(y) by {
            assert(rest.contains_key(y) <==> coords.contains(y));
        }
        assert(lists_in_order(all, origins));
    }
}

/// What is listed in order is finite, and nothing is listed twice.
pub proof fn lemma_listed(coords: Seq<Text>, origins: Map<Text, OriginView>)
    requires
        lists_in_order(coords, origins),
    ensures
        origins.dom().finite(),
        coords.no_duplicates(),
{
    assert(origins.dom() =~= coords.to_set()) by {
        assert forall|x: Text| origins.dom().contains(x) <==> coords.to_set().contains(x) by {
            assert(origins.contains_key(x) <==> coords.contains(x));
        }
    }
    vstd::seq_lib::seq_to_set_is_finite(coords);
    assert forall|i: int, j: int|
        0 <= i < coords.len() && 0 <= j < coords.len() && i != j implies coords[i] != coords[j] by {
        if i < j {
            assert(stands_before(origins, coords[i], coords[j]));
        } else {
            assert(stands_before(origins, coords[j], coords[i]));
        }
        lemma_stands_irreflexive(origins, coords[i]);
    }
}

/// Where `x` goes among coordinates that are in order: behind all that do not come
/// later than it.
fn place_for(coords: &Vec<String>, origins: &SortedMap<Origin>, from: &Origin) -> (at: usize)
    requires
        forall|i: int|
            0 <= i < coords@.len() ==> origins@.contains_key((#[trigger] coords@[i])@),
        forall|i: int, j: int|
            0 <= i < j < coords@.len() ==> stands_before(
                origins@,
                (#[trigger] coords@[i])@,
                (#[trigger] coords@[j])@,
            ),
    ensures
        at <= coords@.len(),
        forall|i: int|
            0 <= i < at ==> !earlier(from@, origins@[(#[trigger] coords@[i])@]),
        forall|i: int|
            at <= i < coords@.len() ==> earlier(from@, origins@[(#[trigger] coords@[i])@]),
{
    let mut low: usize = 0;
    let mut high: usize = coords.len();
    while low < high
        invariant
            low <= high <= coords@.len(),
            forall|i: int|
                0 <= i < coords@.len() ==> origins@.contains_key((#[trigger] coords@[i])@),
            forall|i: int, j: int|
                0 <= i < j < coords@.len() ==> stands_before(
                    origins@,
                    (#[trigger] coords@[i])@,
                    (#[trigger] coords@[j])@,
                ),
            forall|i: int|
                0 <= i < low ==> !earlier(from@, origins@[(#[trigger] coords@[i])@]),
            forall|i: int|
                high <= i < coords@.len() ==> earlier(from@, origins@[(#[trigger] coords@[i])@]),
        decreases high - low,
    {
        let mid: usize = low + (high - low) / 2;
        let later = match origins.get(coords[mid].as_str()) {
            Some(o) => from.is_earlier(o),
            None => false,
        };
        let ghost pivot = origins@[coords@[mid as int]@];
        if later {
            assert forall|i: int| mid <= i < coords@.len() implies earlier(
                from@,
                origins@[(#[trigger] coords@[i])@],
            ) by {
                if i > mid {
                    assert(stands_before(origins@, coords@[mid as int]@, coords@[i]@));
                    if earlier(pivot, origins@[coords@[i]@]) {
                        lemma_earlier_transitive(from@, pivot, origins@[coords@[i]@]);
                    }
                }
            }
            high = mid;
        } else {
            assert forall|i: int| 0 <= i < mid + 1 implies !earlier(
                from@,
                origins@[(#[trigger] coords@[i])@],
            ) by {
                if i < mid && earlier(from@, origins@[coords@[i]@]) {
                    assert(stands_before(origins@, coords@[i]@, coords@[mid as int]@));
                    if earlier(origins@[coords@[i]@], pivot) {
                        lemma_earlier_transitive(from@, origins@[coords@[i]@], pivot);
                    }
                }
            }
            low = mid + 1;
        }
    }
    low
}

/// The coordinates that come from somewhere, in order.
pub fn list_in_order(origins: &SortedMap<Origin>) -> (coords: Vec<String>)
    ensures
        views(coords@) == listing(origins@),
        lists_in_order(views(coords@), origins@),
{
    let mut coords: Vec<String> = Vec::new();
    let n: usize = origins.len();
    let ghost keys = key_order(origins@.dom());
    proof {
        lemma_key_order_lists(origins@.dom());
    }
    let mut i: usize = 0;
    while i < n
        invariant
            i <= n,
            n == keys.len(),
            keys == key_order(origins@.dom()),
            crate::sorted_map::lists(keys, origins@.dom()),
            forall|j: int|
                0 <= j < coords@.len() ==> origins@.contains_key((#[trigger] coords@[j])@),
            forall|a: int, b: int|
                0 <= a < b < coords@.len() ==> stands_before(
                    origins@,
                    (#[trigger] coords@[a])@,
                    (#[trigger] coords@[b])@,
                ),
            forall|j: int|
                0 <= j < coords@.len() ==> keys.take(i as int).contains((#[trigger] coords@[j])@),
            forall|j: int|
                0 <= j < i ==> views(coords@).contains(#[trigger] keys[j]),
        decreases n - i,
    {
        let key = origins.key_at(i);
        let from = origins.value_at(i);
        let at: usize = place_for(&coords, origins, from);
        let ghost before = coords@;
        assert(keys.contains(keys[i as int]));
        coords.insert(at, key.clone());
        proof {
            let after = coords@;
            assert(after =~= before.insert(at as int, after[at as int]));
            assert forall|j: int| 0 <= j < after.len() implies origins@.contains_key(
                (#[trigger] after[j])@,
            ) && keys.take(i + 1).contains(after[j]@) by {
                if j == at {
                    assert(keys.take(i + 1)[i as int] == key@);
                } else {
                    let was = if j < at {
                        j
                    } else {
                        j - 1
                    };
                    assert(after[j] == before[was]);
                    let p = choose|p: int|
                        0 <= p < keys.take(i as int).len() && keys.take(i as int)[p]
                            == before[was]@;
                    assert(keys.take(i + 1)[p] == before[was]@);
                }
            }
            assert forall|a: int, b: int| 0 <= a < b < after.len() implies stands_before(
                origins@,
                (#[trigger] after[a])@,
                (#[trigger] after[b])@,
            ) by {
                let x = if a < at {
                    a
                } else {
                    a - 1
                };
                let y = if b < at {
                    b
                } else {
                    b - 1
                };
                if b == at {
                    assert(after[a] == before[a]);
                    let p = choose|p: int|
                        0 <= p < keys.take(i as int).len() && keys.take(i as int)[p]
                            == before[a]@;
                    assert(text_lt(keys[p], keys[i as int]));
                    lemma_earlier_total(origins@[before[a]@], from@);
                } else if a == at {
                    assert(after[b] == before[b - 1]);
                } else {
                    assert(after[a] == before[x] && after[b] == before[y]);
                }
            }
            assert forall|j: int| 0 <= j < i + 1 implies views(after).contains(
                #[trigger] keys[j],
            ) by {
                if j == i {
                    assert(views(after)[at as int] == key@);
                } else {
                    assert(views(before).contains(keys[j]));
                    let p = choose|p: int| 0 <= p < before.len() && views(before)[p] == keys[j];
                    if p < at {
                        assert(after[p] == before[p]);
                        assert(views(after)[p] == keys[j]);
                    } else {
                        assert(after[p + 1] == before[p]);
                        assert(views(after)[p + 1] == keys[j]);
                    }
                }
            }
        }
        i += 1;
    }
    proof {
        let all = views(coords@);
        assert forall|x: Text| #[trigger] origins@.contains_key(x) <==> all.contains(x) by {
            if origins@.contains_key(x) {
                assert(origins@.dom().contains(x));
                assert(keys.contains(x));
                let j = choose|j: int| 0 <= j < keys.len() && keys[j] == x;
                assert(all.contains(keys[j]));
            }
            if all.contains(x) {
                let j = choose|j: int| 0 <= j < all.len() && all[j] == x;
                assert(coords@[j]@ == x);
            }
        }
        assert forall|a: int, b: int| 0 <= a < b < all.len() implies stands_before(
            origins@,
            #[trigger] all[a],
            #[trigger] all[b],
        ) by {
            assert(stands_before(origins@, coords@[a]@, coords@[b]@));
        }
        lemma_listing(all, origins@);
    }
    coords
}

} // verus!
