//! A map from text keys to values that lists its entries in key order.

use vstd::prelude::*;

use crate::text::{
    lemma_text_lt_irreflexive, lemma_text_lt_total, lemma_text_lt_transitive, sorts_before,
    text_lt, Text,
};

verus! {

/// The keys stand in strictly ascending order.
pub open spec fn ascending(keys: Seq<Text>) -> bool {
    forall|i: int, j: int|
        0 <= i < j < keys.len() ==> text_lt(#[trigger] keys[i], #[trigger] keys[j])
}

/// `keys` lists exactly the members of `domain`, in ascending order.
pub open spec fn lists(keys: Seq<Text>, domain: Set<Text>) -> bool {
    &&& ascending(keys)
    &&& forall|k: Text| #[trigger] domain.contains(k) <==> keys.contains(k)
}

/// The members of `domain` in ascending order.
pub open spec fn key_order(domain: Set<Text>) -> Seq<Text> {
    choose|keys: Seq<Text>| lists(keys, domain)
}

/// The values of a map in the order of their keys.
pub open spec fn values_in_order<A>(m: Map<Text, A>) -> Seq<A> {
    key_order(m.dom()).map_values(|k: Text| m[k])
}

proof fn lemma_ascending_drop_last(keys: Seq<Text>, domain: Set<Text>)
    requires
        lists(keys, domain),
        keys.len() > 0,
    ensures
        lists(keys.drop_last(), domain.remove(keys.last())),
{
    let last = keys.last();
    let rest = keys.drop_last();
    assert forall|k: Text| #[trigger] domain.remove(last).contains(k) <==> rest.contains(k) by {
        if domain.remove(last).contains(k) {
            assert(domain.contains(k));
            let i = choose|i: int| 0 <= i < keys.len() && keys[i] == k;
            assert(rest[i] == k);
        }
        if rest.contains(k) {
            let i = choose|i: int| 0 <= i < rest.len() && rest[i] == k;
            assert(keys[i] == k);
            assert(text_lt(keys[i], keys[keys.len() - 1]));
            lemma_text_lt_irreflexive(last);
            assert(keys.contains(k));
            assert(domain.contains(k));
        }
    }
}

/// Only one ascending sequence lists a given domain.
pub proof fn lemma_listing_unique(a: Seq<Text>, b: Seq<Text>, domain: Set<Text>)
    requires
        lists(a, domain),
        lists(b, domain),
    ensures
        a == b,
    decreases a.len(),
{
    if a.len() == 0 {
        if b.len() > 0 {
            assert(b.contains(b[0]));
            assert(domain.contains(b[0]));
            assert(a.contains(b[0]));
        }
        assert(a =~= b);
    } else {
        assert(a.contains(a.last()));
        assert(domain.contains(a.last()));
        assert(b.contains(a.last()));
        let j = choose|j: int| 0 <= j < b.len() && b[j] == a.last();
        assert(b.contains(b.last()));
        assert(domain.contains(b.last()));
        assert(a.contains(b.last()));
        let i = choose|i: int| 0 <= i < a.len() && a[i] == b.last();
        if j < b.len() - 1 {
            assert(text_lt(b[j], b[b.len() - 1]));
            if i < a.len() - 1 {
                assert(text_lt(a[i], a[a.len() - 1]));
                lemma_text_lt_transitive(a.last(), b.last(), a.last());
            }
            lemma_text_lt_irreflexive(a.last());
        }
        lemma_ascending_drop_last(a, domain);
        lemma_ascending_drop_last(b, domain);
        lemma_listing_unique(a.drop_last(), b.drop_last(), domain.remove(a.last()));
        assert(a =~= a.drop_last().push(a.last()));
        assert(b =~= b.drop_last().push(b.last()));
    }
}

/// An ascending listing of a domain is its key order.
pub proof fn lemma_key_order(keys: Seq<Text>, domain: Set<Text>)
    requires
        lists(keys, domain),
    ensures
        key_order(domain) == keys,
{
    lemma_listing_unique(keys, key_order(domain), domain);
}

/// `keys` with `k` put in before the first greater one from the end.
pub open spec fn inserted(keys: Seq<Text>, k: Text) -> Seq<Text>
    decreases keys.len(),
{
    if keys.len() == 0 || text_lt(keys.last(), k) {
        keys.push(k)
    } else {
        inserted(keys.drop_last(), k).push(keys.last())
    }
}

proof fn lemma_inserted(keys: Seq<Text>, k: Text)
    requires
        ascending(keys),
        !keys.contains(k),
    ensures
        ascending(inserted(keys, k)),
        forall|x: Text| #[trigger] inserted(keys, k).contains(x) <==> keys.contains(x) || x == k,
    decreases keys.len(),
{
    let out = inserted(keys, k);
    if keys.len() == 0 || text_lt(keys.last(), k) {
        assert forall|i: int, j: int| 0 <= i < j < out.len() implies text_lt(
            #[trigger] out[i],
            #[trigger] out[j],
        ) by {
            if j == keys.len() && i < keys.len() - 1 {
                assert(text_lt(keys[i], keys[keys.len() - 1]));
                lemma_text_lt_transitive(keys[i], keys.last(), k);
            }
        }
        assert forall|x: Text| #[trigger] out.contains(x) <==> keys.contains(x) || x == k by {
            if keys.contains(x) {
                let i = choose|i: int| 0 <= i < keys.len() && keys[i] == x;
                assert(out[i] == x);
            }
            assert(out[keys.len() as int] == k);
        }
    } else {
        let rest = keys.drop_last();
        let head = inserted(rest, k);
        let last = keys.last();
        assert(!rest.contains(k)) by {
            if rest.contains(k) {
                let i = choose|i: int| 0 <= i < rest.len() && rest[i] == k;
                assert(keys[i] == k);
            }
        }
        assert(keys[keys.len() - 1] == last);
        lemma_inserted(rest, k);
        lemma_text_lt_total(last, k);
        assert(text_lt(k, last));
        assert forall|i: int, j: int| 0 <= i < j < out.len() implies text_lt(
            #[trigger] out[i],
            #[trigger] out[j],
        ) by {
            if j == head.len() {
                assert(head.contains(head[i]));
                if head[i] != k {
                    let p = choose|p: int| 0 <= p < rest.len() && rest[p] == head[i];
                    assert(text_lt(keys[p], keys[keys.len() - 1]));
                }
            }
        }
        assert forall|x: Text| #[trigger] out.contains(x) <==> keys.contains(x) || x == k by {
            if out.contains(x) {
                let i = choose|i: int| 0 <= i < out.len() && out[i] == x;
                if i < head.len() {
                    assert(head.contains(x));
                    if x != k {
                        let p = choose|p: int| 0 <= p < rest.len() && rest[p] == x;
                        assert(keys[p] == x);
                    }
                }
            }
            if keys.contains(x) || x == k {
                if x == last {
                    assert(out[head.len() as int] == x);
                } else {
                    if x != k {
                        let i = choose|i: int| 0 <= i < keys.len() && keys[i] == x;
                        assert(rest[i] == x);
                    }
                    assert(head.contains(x));
                    let i = choose|i: int| 0 <= i < head.len() && head[i] == x;
                    assert(out[i] == x);
                }
            }
        }
    }
}

/// Every finite domain has a key order that lists it.
pub proof fn lemma_key_order_lists(domain: Set<Text>)
    requires
        domain.finite(),
    ensures
        lists(key_order(domain), domain),
    decreases domain.len(),
{
    if domain.len() == 0 {
        assert(lists(Seq::<Text>::empty(), domain));
    } else {
        let k = domain.choose();
        let rest = domain.remove(k);
        lemma_key_order_lists(rest);
        let keys = key_order(rest);
        assert(!rest.contains(k));
        assert(!keys.contains(k));
        lemma_inserted(keys, k);
        assert(lists(inserted(keys, k), domain)) by {
            assert forall|x: Text| #[trigger] domain.contains(x) <==> inserted(keys, k).contains(
                x,
            ) by {
                assert(rest.contains(x) <==> keys.contains(x));
            }
        }
    }
}

/// A new member takes its place in the key order.
pub proof fn lemma_key_order_insert(domain: Set<Text>, k: Text)
    requires
        domain.finite(),
        !domain.contains(k),
    ensures
        key_order(domain.insert(k)) == inserted(key_order(domain), k),
{
    lemma_key_order_lists(domain);
    let keys = key_order(domain);
    assert(!keys.contains(k)) by {
        assert(domain.contains(k) <==> keys.contains(k));
    }
    lemma_inserted(keys, k);
    assert(lists(inserted(keys, k), domain.insert(k))) by {
        assert forall|x: Text| #[trigger] domain.insert(k).contains(x) <==> inserted(
            keys,
            k,
        ).contains(x) by {
            assert(domain.contains(x) <==> keys.contains(x));
        }
    }
    lemma_key_order(inserted(keys, k), domain.insert(k));
}

/// The key order of a finite domain names each member once.
pub proof fn lemma_key_order_len(domain: Set<Text>)
    requires
        domain.finite(),
    ensures
        key_order(domain).len() == domain.len(),
    decreases domain.len(),
{
    lemma_key_order_lists(domain);
    let keys = key_order(domain);
    if keys.len() == 0 {
        assert(domain =~= Set::empty()) by {
            assert forall|k: Text| !domain.contains(k) by {
                assert(domain.contains(k) <==> keys.contains(k));
            }
        }
    } else {
        assert(keys.contains(keys.last()));
        assert(domain.contains(keys.last()));
        lemma_ascending_drop_last(keys, domain);
        lemma_key_order(keys.drop_last(), domain.remove(keys.last()));
        lemma_key_order_len(domain.remove(keys.last()));
    }
}

/// Values that can be copied without changing what they stand for.
pub trait Duplicate: View + Sized {
    /// An equal value of its own.
    fn duplicate(&self) -> (copy: Self)
        ensures
            copy@ == self@,
    ;
}

impl Duplicate for String {
    fn duplicate(&self) -> (copy: Self) {
        self.clone()
    }
}

/// What each element of a sequence stands for.
pub open spec fn views<T: View>(s: Seq<T>) -> Seq<T::V> {
    s.map_values(|t: T| t@)
}

/// A copy of a vector, element by element.
pub fn duplicate_all<T: Duplicate>(items: &Vec<T>) -> (copy: Vec<T>)
    ensures
        views(copy@) == views(items@),
        copy@.len() == items@.len(),
        forall|i: int| 0 <= i < items@.len() ==> (#[trigger] copy@[i])@ == items@[i]@,
{
    let mut copy: Vec<T> = Vec::new();
    let mut i: usize = 0;
    while i < items.len()
        invariant
            i <= items.len(),
            copy.len() == i,
            forall|j: int| 0 <= j < i ==> (#[trigger] copy@[j])@ == items@[j]@,
        decreases items.len() - i,
    {
        copy.push(items[i].duplicate());
        i += 1;
    }
    assert(views(copy@) =~= views(items@));
    copy
}

/// A map with text keys, kept in ascending key order.
#[derive(Debug, PartialEq)]
pub struct SortedMap<V> {
    keys: Vec<String>,
    values: Vec<V>,
}

impl<V> SortedMap<V> {
    closed spec fn key_seq(self) -> Seq<Text> {
        views(self.keys@)
    }

    #[verifier::type_invariant]
    closed spec fn ordered(self) -> bool {
        &&& self.keys@.len() == self.values@.len()
        &&& ascending(self.key_seq())
    }
}

impl<V: View> View for SortedMap<V> {
    type V = Map<Text, V::V>;

    closed spec fn view(&self) -> Map<Text, V::V> {
        Map::new(
            |k: Text| self.key_seq().contains(k),
            |k: Text| self.values@[self.key_seq().index_of(k)]@,
        )
    }
}

impl<V: View> SortedMap<V> {
    proof fn lemma_at(&self, i: int)
        requires
            self.ordered(),
            0 <= i < self.keys@.len(),
        ensures
            self@.contains_key(self.keys@[i]@),
            self@[self.keys@[i]@] == self.values@[i]@,
    {
        let keys = self.key_seq();
        let k = keys[i];
        assert(keys.contains(k));
        let j = keys.index_of(k);
        if i < j {
            assert(text_lt(keys[i], keys[j]));
        } else if j < i {
            assert(text_lt(keys[j], keys[i]));
        }
        lemma_text_lt_irreflexive(k);
    }

    proof fn lemma_lists(&self)
        requires
            self.ordered(),
        ensures
            lists(self.key_seq(), self@.dom()),
            key_order(self@.dom()) == self.key_seq(),
            self@.dom().finite(),
    {
        let keys = self.key_seq();
        assert(lists(keys, self@.dom()));
        lemma_key_order(keys, self@.dom());
        assert(self@.dom() =~= keys.to_set());
        vstd::seq_lib::seq_to_set_is_finite(keys);
    }

    /// An empty map.
    pub fn new() -> (m: Self)
        ensures
            m@ == Map::<Text, V::V>::empty(),
    {
        let m = SortedMap { keys: Vec::new(), values: Vec::new() };
        assert(m@ =~= Map::<Text, V::V>::empty());
        m
    }

    /// How many entries there are.
    pub fn len(&self) -> (n: usize)
        ensures
            n == self@.dom().len(),
            n == key_order(self@.dom()).len(),
            self@.dom().finite(),
    {
        proof {
            use_type_invariant(self);
            self.lemma_lists();
            lemma_key_order_len(self@.dom());
        }
        self.keys.len()
    }

    /// Is there no entry?
    pub fn is_empty(&self) -> (b: bool)
        ensures
            b == (self@ == Map::<Text, V::V>::empty()),
    {
        let n: usize = self.len();
        proof {
            use_type_invariant(self);
            self.lemma_lists();
            if n == 0 {
                assert(self@ =~= Map::<Text, V::V>::empty()) by {
                    assert forall|k: Text| !self@.dom().contains(k) by {
                        assert(self@.dom().contains(k) <==> self.key_seq().contains(k));
                    }
                }
            }
        }
        n == 0
    }

    /// The key at a position of the key order.
    pub fn key_at(&self, i: usize) -> (k: &String)
        requires
            i < key_order(self@.dom()).len(),
        ensures
            k@ == key_order(self@.dom())[i as int],
            self@.contains_key(k@),
    {
        proof {
            use_type_invariant(self);
            self.lemma_lists();
            self.lemma_at(i as int);
        }
        &self.keys[i]
    }

    /// The value at a position of the key order.
    pub fn value_at(&self, i: usize) -> (v: &V)
        requires
            i < key_order(self@.dom()).len(),
        ensures
            self@.contains_key(key_order(self@.dom())[i as int]),
            v@ == self@[key_order(self@.dom())[i as int]],
            v@ == values_in_order(self@)[i as int],
    {
        proof {
            use_type_invariant(self);
            self.lemma_lists();
            self.lemma_at(i as int);
        }
        &self.values[i]
    }

    /// The position of `key`, or the position at which it belongs.
    fn find(&self, key: &str) -> (r: (bool, usize))
        ensures
            r.0 ==> r.1 < self.keys.len() && self.keys@[r.1 as int]@ == key@,
            !r.0 ==> r.1 <= self.keys.len(),
            !r.0 ==> (forall|j: int| 0 <= j < r.1 ==> text_lt(#[trigger] self.keys@[j]@, key@)),
            !r.0 ==> (forall|j: int|
                r.1 <= j < self.keys.len() ==> text_lt(key@, #[trigger] self.keys@[j]@)),
    {
        proof {
            use_type_invariant(self);
        }
        let ghost keys = self.key_seq();
        let mut lo: usize = 0;
        let mut hi: usize = self.keys.len();
        while lo < hi
            invariant
                lo <= hi <= self.keys.len(),
                self.ordered(),
                keys == self.key_seq(),
                forall|j: int| 0 <= j < lo ==> text_lt(#[trigger] keys[j], key@),
                forall|j: int| hi <= j < keys.len() ==> text_lt(key@, #[trigger] keys[j]),
            decreases hi - lo,
        {
            let mid: usize = lo + (hi - lo) / 2;
            let probe = self.keys[mid].as_str();
            assert(keys[mid as int] == probe@);
            if sorts_before(probe, key) {
                assert forall|j: int| 0 <= j < mid + 1 implies text_lt(#[trigger] keys[j], key@) by {
                    if j < mid {
                        lemma_text_lt_transitive(keys[j], keys[mid as int], key@);
                    }
                }
                lo = mid + 1;
            } else if sorts_before(key, probe) {
                assert forall|j: int| mid <= j < keys.len() implies text_lt(
                    key@,
                    #[trigger] keys[j],
                ) by {
                    if mid < j {
                        lemma_text_lt_transitive(key@, keys[mid as int], keys[j]);
                    }
                }
                hi = mid;
            } else {
                proof {
                    lemma_text_lt_total(probe@, key@);
                }
                return (true, mid);
            }
        }
        assert forall|j: int| 0 <= j < lo implies text_lt(#[trigger] self.keys@[j]@, key@) by {
            assert(keys[j] == self.keys@[j]@);
        }
        assert forall|j: int| lo <= j < self.keys.len() implies text_lt(
            key@,
            #[trigger] self.keys@[j]@,
        ) by {
            assert(keys[j] == self.keys@[j]@);
        }
        (false, lo)
    }

    proof fn lemma_absent(&self, key: Text, at: int)
        requires
            self.ordered(),
            0 <= at <= self.keys@.len(),
            forall|j: int| 0 <= j < at ==> text_lt(#[trigger] self.keys@[j]@, key),
            forall|j: int| at <= j < self.keys@.len() ==> text_lt(key, #[trigger] self.keys@[j]@),
        ensures
            !self@.contains_key(key),
    {
        if self.key_seq().contains(key) {
            let j = choose|j: int| 0 <= j < self.key_seq().len() && self.key_seq()[j] == key;
            assert(self.keys@[j]@ == key);
            lemma_text_lt_irreflexive(key);
        }
    }

    /// The value under a key.
    pub fn get(&self, key: &str) -> (v: Option<&V>)
        ensures
            v is Some <==> self@.contains_key(key@),
            v matches Some(x) ==> x@ == self@[key@],
    {
        proof {
            use_type_invariant(self);
        }
        let (found, at) = self.find(key);
        if found {
            proof {
                self.lemma_at(at as int);
            }
            Some(&self.values[at])
        } else {
            proof {
                self.lemma_absent(key@, at as int);
            }
            None
        }
    }

    /// Is there an entry under a key?
    pub fn contains_key(&self, key: &str) -> (b: bool)
        ensures
            b == self@.contains_key(key@),
    {
        self.get(key).is_some()
    }

    proof fn lemma_view_is(&self, m: Map<Text, V::V>)
        requires
            self.ordered(),
            forall|i: int| #![trigger self.keys@[i]]
                0 <= i < self.keys@.len() ==> m.contains_key(self.keys@[i]@) && m[self.keys@[i]@]
                    == self.values@[i]@,
            forall|k: Text| #[trigger] m.contains_key(k) ==> self.key_seq().contains(k),
        ensures
            self@ == m,
    {
        assert forall|k: Text| #[trigger] self@.contains_key(k) implies m.contains_key(k) && m[k]
            == self@[k] by {
            let i = choose|i: int| 0 <= i < self.key_seq().len() && self.key_seq()[i] == k;
            assert(self.keys@[i]@ == k);
            self.lemma_at(i);
        }
        assert forall|k: Text| #[trigger] m.contains_key(k) implies self@.contains_key(k) by {
            assert(self.key_seq().contains(k));
        }
        assert(self@ =~= m);
    }

    /// Put a value under a key, in place of any value that stands there.
    pub fn insert(&mut self, key: String, value: V)
        ensures
            final(self)@ == old(self)@.insert(key@, value@),
    {
        proof {
            use_type_invariant(&*self);
        }
        let ghost before = *self;
        let ghost k = key@;
        let ghost v = value@;
        let (found, at) = self.find(key.as_str());
        let mut taken = SortedMap::<V>::new();
        std::mem::swap(self, &mut taken);
        let SortedMap { mut keys, mut values } = taken;
        if found {
            values.set(at, value);
        } else {
            keys.insert(at, key);
            values.insert(at, value);
        }
        let ghost after = SortedMap { keys, values };
        proof {
            let old_keys = before.key_seq();
            let new_keys = after.key_seq();
            if found {
                assert(new_keys =~= old_keys);
                lemma_text_lt_irreflexive(k);
                assert forall|i: int| #![trigger after.keys@[i]] 0 <= i < after.keys@.len() implies
                    before@.insert(k, v).contains_key(after.keys@[i]@)
                    && before@.insert(k, v)[after.keys@[i]@] == after.values@[i]@ by {
                    before.lemma_at(i);
                    if i < at {
                        assert(text_lt(old_keys[i], old_keys[at as int]));
                    } else if at < i {
                        assert(text_lt(old_keys[at as int], old_keys[i]));
                    }
                }
                assert(new_keys[at as int] == k);
            } else {
                assert(new_keys =~= old_keys.insert(at as int, k));
                assert forall|i: int, j: int| 0 <= i < j < new_keys.len() implies text_lt(
                    #[trigger] new_keys[i],
                    #[trigger] new_keys[j],
                ) by {
                    let oi = if i < at { i } else { i - 1 };
                    let oj = if j < at { j } else { j - 1 };
                    if i != at && j != at {
                        assert(text_lt(old_keys[oi], old_keys[oj]));
                    } else if i == at {
                        assert(text_lt(k, before.keys@[oj]@));
                    } else {
                        assert(text_lt(before.keys@[oi]@, k));
                    }
                }
                before.lemma_absent(k, at as int);
                assert forall|i: int| #![trigger after.keys@[i]] 0 <= i < after.keys@.len() implies
                    before@.insert(k, v).contains_key(after.keys@[i]@)
                    && before@.insert(k, v)[after.keys@[i]@] == after.values@[i]@ by {
                    if i < at {
                        before.lemma_at(i);
                    } else if i > at {
                        before.lemma_at(i - 1);
                    }
                }
                assert(new_keys[at as int] == k);
            }
            assert forall|x: Text| #[trigger] before@.insert(k, v).contains_key(x) implies
                new_keys.contains(x) by {
                if x != k {
                    assert(old_keys.contains(x));
                    let i = choose|i: int| 0 <= i < old_keys.len() && old_keys[i] == x;
                    if found || i < at {
                        assert(new_keys[i] == x);
                    } else {
                        assert(new_keys[i + 1] == x);
                    }
                }
            }
            after.lemma_view_is(before@.insert(k, v));
        }
        *self = SortedMap { keys, values };
    }

    /// Take the value under a key out of the map.
    pub fn remove(&mut self, key: &str) -> (v: Option<V>)
        ensures
            final(self)@ == old(self)@.remove(key@),
            v is Some <==> old(self)@.contains_key(key@),
            v matches Some(x) ==> x@ == old(self)@[key@],
    {
        proof {
            use_type_invariant(&*self);
        }
        let ghost before = *self;
        let ghost k = key@;
        let (found, at) = self.find(key);
        if !found {
            proof {
                before.lemma_absent(k, at as int);
                assert(before@.remove(k) =~= before@);
            }
            return None;
        }
        let mut taken = SortedMap::<V>::new();
        std::mem::swap(self, &mut taken);
        let SortedMap { mut keys, mut values } = taken;
        let _ = keys.remove(at);
        let value = values.remove(at);
        let ghost after = SortedMap { keys, values };
        proof {
            let old_keys = before.key_seq();
            let new_keys = after.key_seq();
            assert(new_keys =~= old_keys.remove(at as int));
            before.lemma_at(at as int);
            lemma_text_lt_irreflexive(k);
            assert forall|i: int, j: int| 0 <= i < j < new_keys.len() implies text_lt(
                #[trigger] new_keys[i],
                #[trigger] new_keys[j],
            ) by {
                let oi = if i < at { i } else { i + 1 };
                let oj = if j < at { j } else { j + 1 };
                assert(text_lt(old_keys[oi], old_keys[oj]));
            }
            assert forall|i: int| #![trigger after.keys@[i]] 0 <= i < after.keys@.len() implies
                before@.remove(k).contains_key(after.keys@[i]@)
                && before@.remove(k)[after.keys@[i]@] == after.values@[i]@ by {
                let oi = if i < at { i } else { i + 1 };
                before.lemma_at(oi);
                if oi < at {
                    assert(text_lt(old_keys[oi], old_keys[at as int]));
                } else {
                    assert(text_lt(old_keys[at as int], old_keys[oi]));
                }
            }
            assert forall|x: Text| #[trigger] before@.remove(k).contains_key(x) implies
                new_keys.contains(x) by {
                assert(old_keys.contains(x));
                let i = choose|i: int| 0 <= i < old_keys.len() && old_keys[i] == x;
                if i < at {
                    assert(new_keys[i] == x);
                } else {
                    assert(i != at);
                    assert(new_keys[i - 1] == x);
                }
            }
            after.lemma_view_is(before@.remove(k));
        }
        *self = SortedMap { keys, values };
        Some(value)
    }
}

impl<V: Duplicate> Duplicate for SortedMap<V> {
    fn duplicate(&self) -> (copy: Self) {
        proof {
            use_type_invariant(self);
            self.lemma_lists();
        }
        let keys = duplicate_all(&self.keys);
        let values = duplicate_all(&self.values);
        let ghost copy = SortedMap { keys, values };
        proof {
            assert(copy.key_seq() == self.key_seq());
            assert forall|i: int| #![trigger copy.keys@[i]] 0 <= i < copy.keys@.len() implies
                self@.contains_key(copy.keys@[i]@) && self@[copy.keys@[i]@] == copy.values@[i]@ by {
                assert(copy.values@[i]@ == self.values@[i]@);
                self.lemma_at(i);
            }
            copy.lemma_view_is(self@);
        }
        SortedMap { keys, values }
    }
}

impl<V: Duplicate> SortedMap<V> {
    /// The keys in order.
    pub fn keys(&self) -> (r: Vec<String>)
        ensures
            views(r@) == key_order(self@.dom()),
    {
        proof {
            use_type_invariant(self);
            self.lemma_lists();
        }
        duplicate_all(&self.keys)
    }

    /// The values in the order of their keys.
    pub fn values(&self) -> (r: Vec<V>)
        ensures
            views(r@) == values_in_order(self@),
    {
        proof {
            use_type_invariant(self);
            self.lemma_lists();
            assert forall|i: int| 0 <= i < self.values@.len() implies values_in_order(self@)[i]
                == (#[trigger] self.values@[i])@ by {
                self.lemma_at(i);
            }
            assert(values_in_order(self@) =~= views(self.values@));
        }
        duplicate_all(&self.values)
    }
}

impl<V: Duplicate> Clone for SortedMap<V> {
    fn clone(&self) -> (copy: Self)
        ensures
            copy@ == self@,
    {
        self.duplicate()
    }
}

} // verus!
