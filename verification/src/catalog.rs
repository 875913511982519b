//! Ordered maps: entries held in ascending key order, each key once.

use vstd::prelude::*;

use crate::text::{place_text, Place};

verus! {

/// A key type with a strict total order on its views, and the form that a
/// lookup hands in for it.
pub trait Key: View {
    /// What a lookup is made with.
    type Ask: View<V = Self::V> + ?Sized;

    spec fn before(a: Self::V, b: Self::V) -> bool;

    proof fn irreflexive(a: Self::V)
        ensures
            !Self::before(a, a),
    ;

    proof fn transitive(a: Self::V, b: Self::V, c: Self::V)
        requires
            Self::before(a, b),
            Self::before(b, c),
        ensures
            Self::before(a, c),
    ;

    proof fn total(a: Self::V, b: Self::V)
        ensures
            Self::before(a, b) || Self::before(b, a) || a == b,
    ;

    /// Where this key stands relative to `ask`.
    fn place(&self, ask: &Self::Ask) -> (place: Place)
        ensures
            place == Place::Same <==> self@ == ask@,
            place == Place::Before <==> Self::before(self@, ask@),
            place == Place::After <==> Self::before(ask@, self@),
    ;

    fn as_ask(&self) -> (ask: &Self::Ask)
        ensures
            ask@ == self@,
    ;
}

impl Key for String {
    type Ask = str;

    open spec fn before(a: Seq<char>, b: Seq<char>) -> bool {
        crate::text::text_before(a, b)
    }

    proof fn irreflexive(a: Seq<char>) {
        crate::text::text_before_irreflexive(a);
    }

    proof fn transitive(a: Seq<char>, b: Seq<char>, c: Seq<char>) {
        crate::text::text_before_transitive(a, b, c);
    }

    proof fn total(a: Seq<char>, b: Seq<char>) {
        crate::text::text_before_total(a, b);
    }

    fn place(&self, ask: &str) -> (place: Place) {
        proof {
            crate::text::text_before_irreflexive(self@);
            crate::text::text_before_total(self@, ask@);
            if crate::text::text_before(self@, ask@) && crate::text::text_before(ask@, self@) {
                crate::text::text_before_transitive(self@, ask@, self@);
            }
        }
        place_text(self.as_str(), ask)
    }

    fn as_ask(&self) -> (ask: &str) {
        self.as_str()
    }
}

/// A value that can be written out again with the same view.
pub trait Replica: View + Sized {
    fn replica(&self) -> (copy: Self)
        ensures
            copy@ == self@,
    ;
}

impl Replica for String {
    fn replica(&self) -> (copy: String) {
        self.clone()
    }
}

/// Each key stands before the ones after it.
pub open spec fn ascending<K: Key>(keys: Seq<K::V>) -> bool {
    forall|i: int, j: int| 0 <= i < j < keys.len() ==> #[trigger] K::before(keys[i], keys[j])
}

/// `keys` is what `domain` holds, in ascending order.
pub open spec fn lists<K: Key>(keys: Seq<K::V>, domain: Set<K::V>) -> bool {
    &&& ascending::<K>(keys)
    &&& keys.to_set() == domain
}

/// A domain has one ascending listing.
pub proof fn listing_unique<K: Key>(a: Seq<K::V>, b: Seq<K::V>, domain: Set<K::V>)
    requires
        lists::<K>(a, domain),
        lists::<K>(b, domain),
    ensures
        a == b,
    decreases a.len(),
{
    if a.len() == 0 {
        if b.len() > 0 {
            assert(b.to_set().contains(b[0]));
            assert(a.to_set().contains(b[0]));
        }
        assert(a =~= b);
    } else {
        assert(a.to_set().contains(a.last()));
        assert(b.contains(a.last()));
        let i = choose|i: int| 0 <= i < b.len() && b[i] == a.last();
        assert(b.to_set().contains(b.last()));
        assert(a.contains(b.last()));
        let j = choose|j: int| 0 <= j < a.len() && a[j] == b.last();
        if i != b.len() - 1 {
            assert(K::before(b[i], b[b.len() - 1]));
            if j != a.len() - 1 {
                assert(K::before(a[j], a[a.len() - 1]));
                K::transitive(a.last(), b.last(), a.last());
            }
            K::irreflexive(a.last());
        }
        assert(a.last() == b.last());
        let a1 = a.drop_last();
        let b1 = b.drop_last();
        assert forall|k: K::V| a1.to_set().contains(k) <==> b1.to_set().contains(k) by {
            ascending_front::<K>(a, k);
            ascending_front::<K>(b, k);
            assert(a1.contains(k) <==> b1.contains(k));
        }
        assert(a1.to_set() =~= b1.to_set());
        assert forall|p: int, q: int| 0 <= p < q < a1.len() implies #[trigger] K::before(a1[p], a1[q]) by {
            assert(K::before(a[p], a[q]));
        }
        assert forall|p: int, q: int| 0 <= p < q < b1.len() implies #[trigger] K::before(b1[p], b1[q]) by {
            assert(K::before(b[p], b[q]));
        }
        listing_unique::<K>(a1, b1, a1.to_set());
        assert(a =~= a1.push(a.last()));
        assert(b =~= b1.push(b.last()));
    }
}

proof fn ascending_front<K: Key>(a: Seq<K::V>, k: K::V)
    requires
        ascending::<K>(a),
        a.len() > 0,
    ensures
        a.drop_last().contains(k) <==> a.to_set().contains(k) && k != a.last(),
{
    if a.drop_last().contains(k) {
        let i = choose|i: int| 0 <= i < a.drop_last().len() && a.drop_last()[i] == k;
        assert(a[i] == k);
        assert(K::before(a[i], a[a.len() - 1]));
        K::irreflexive(k);
    }
    if a.to_set().contains(k) && k != a.last() {
        let i = choose|i: int| 0 <= i < a.len() && a[i] == k;
        assert(a.drop_last()[i] == k);
    }
}

/// The ascending listing of a finite domain.
pub open spec fn listing<K: Key>(domain: Set<K::V>) -> Seq<K::V> {
    choose|keys: Seq<K::V>| lists::<K>(keys, domain)
}

/// Where a new key goes among ascending ones.
proof fn gap<K: Key>(keys: Seq<K::V>, k: K::V) -> (at: int)
    requires
        ascending::<K>(keys),
        !keys.contains(k),
    ensures
        0 <= at <= keys.len(),
        forall|i: int| 0 <= i < at ==> K::before(#[trigger] keys[i], k),
        forall|i: int| at <= i < keys.len() ==> K::before(k, #[trigger] keys[i]),
    decreases keys.len(),
{
    if keys.len() == 0 {
        0
    } else {
        let front = keys.drop_last();
        assert(ascending::<K>(front)) by {
            assert forall|i: int, j: int| 0 <= i < j < front.len() implies #[trigger] K::before(
                front[i],
                front[j],
            ) by {
                assert(K::before(keys[i], keys[j]));
            }
        }
        assert(!front.contains(k)) by {
            if front.contains(k) {
                let i = choose|i: int| 0 <= i < front.len() && front[i] == k;
                assert(keys[i] == k);
            }
        }
        let inner = gap::<K>(front, k);
        K::total(keys.last(), k);
        assert(keys.contains(keys[keys.len() - 1]));
        if K::before(keys.last(), k) {
            assert forall|i: int| 0 <= i < keys.len() implies K::before(#[trigger] keys[i], k) by {
                if i < front.len() {
                    assert(K::before(keys[i], keys[keys.len() - 1]));
                    K::transitive(keys[i], keys.last(), k);
                }
            }
            keys.len() as int
        } else {
            assert forall|i: int| 0 <= i < inner implies K::before(#[trigger] keys[i], k) by {
                assert(front[i] == keys[i]);
            }
            assert forall|i: int| inner <= i < keys.len() implies K::before(
                k,
                #[trigger] keys[i],
            ) by {
                if i < front.len() {
                    assert(front[i] == keys[i]);
                }
            }
            inner
        }
    }
}

/// Every finite domain has its ascending listing.
pub proof fn listing_exists<K: Key>(domain: Set<K::V>)
    requires
        domain.finite(),
    ensures
        lists::<K>(listing::<K>(domain), domain),
    decreases domain.len(),
{
    if domain.len() == 0 {
        let none = Seq::<K::V>::empty();
        assert(none.to_set() =~= domain);
        assert(lists::<K>(none, domain));
    } else {
        let k = domain.choose();
        let rest = domain.remove(k);
        listing_exists::<K>(rest);
        let keys = listing::<K>(rest);
        assert(!keys.contains(k)) by {
            if keys.contains(k) {
                assert(keys.to_set().contains(k));
            }
        }
        let at = gap::<K>(keys, k);
        let all = keys.insert(at, k);
        assert forall|i: int, j: int| 0 <= i < j < all.len() implies #[trigger] K::before(
            all[i],
            all[j],
        ) by {
            let p = if i > at { i - 1 } else { i };
            let q = if j > at { j - 1 } else { j };
            if i == at {
                assert(K::before(k, keys[q]));
            } else if j == at {
                assert(K::before(keys[p], k));
            } else {
                assert(K::before(keys[p], keys[q]));
            }
        }
        assert forall|x: K::V| all.to_set().contains(x) <==> domain.contains(x) by {
            if all.to_set().contains(x) {
                let i = choose|i: int| 0 <= i < all.len() && all[i] == x;
                if i != at {
                    let p = if i > at { i - 1 } else { i };
                    assert(keys[p] == x);
                    assert(keys.to_set().contains(x));
                }
            }
            if domain.contains(x) {
                if x == k {
                    assert(all[at] == k);
                } else {
                    assert(keys.to_set().contains(x));
                    let i = choose|i: int| 0 <= i < keys.len() && keys[i] == x;
                    let p = if i >= at { i + 1 } else { i };
                    assert(all[p] == x);
                }
            }
        }
        assert(all.to_set() =~= domain);
        assert(lists::<K>(all, domain));
    }
}

/// A map whose entries are held in ascending key order, each key once.
#[derive(Debug, PartialEq, Eq)]
#[verifier::reject_recursive_types(K)]
pub struct Catalog<K: Key, V: View> {
    entries: Vec<(K, V)>,
}

impl<K: Key, V: View> Catalog<K, V> {
    /// The keys in the order they are held.
    pub closed spec fn keys(&self) -> Seq<K::V> {
        Seq::new(self.entries@.len(), |i: int| self.entries@[i].0@)
    }

    spec fn values(&self) -> Seq<V::V> {
        Seq::new(self.entries@.len(), |i: int| self.entries@[i].1@)
    }

    #[verifier::type_invariant]
    spec fn in_order(&self) -> bool {
        ascending::<K>(self.keys())
    }
}

impl<K: Key, V: View> View for Catalog<K, V> {
    type V = Map<K::V, V::V>;

    closed spec fn view(&self) -> Map<K::V, V::V> {
        Map::new(
            |k: K::V| self.keys().contains(k),
            |k: K::V| self.values()[self.keys().index_of(k)],
        )
    }
}

impl<K: Key, V: View> Catalog<K, V> {
    pub fn new() -> (catalog: Self)
        ensures
            catalog@ == Map::<K::V, V::V>::empty(),
    {
        let catalog = Catalog { entries: Vec::new() };
        assert(catalog@ =~= Map::<K::V, V::V>::empty());
        catalog
    }

    /// How many entries there are. The keys list the domain in order.
    pub fn len(&self) -> (len: usize)
        ensures
            len == self.keys().len(),
            lists::<K>(self.keys(), self@.dom()),
            self.keys() == listing::<K>(self@.dom()),
            forall|i: int| 0 <= i < self.keys().len() ==> self@.contains_key(#[trigger] self.keys()[i]),
    {
        proof {
            use_type_invariant(self);
            assert(self.keys().to_set() =~= self@.dom());
            assert(lists::<K>(self.keys(), self@.dom()));
            listing_unique::<K>(self.keys(), listing::<K>(self@.dom()), self@.dom());
            assert forall|i: int| 0 <= i < self.keys().len() implies self@.contains_key(
                #[trigger] self.keys()[i],
            ) by {
                assert(self.keys().contains(self.keys()[i]));
            }
        }
        self.entries.len()
    }

    pub fn is_empty(&self) -> (empty: bool)
        ensures
            empty == (self@ == Map::<K::V, V::V>::empty()),
    {
        proof {
            if self.entries@.len() == 0 {
                assert(self@ =~= Map::<K::V, V::V>::empty());
            } else {
                assert(self.keys().contains(self.keys()[0]));
                assert(self@.contains_key(self.keys()[0]));
            }
        }
        self.entries.len() == 0
    }

    pub fn key_at(&self, index: usize) -> (key: &K)
        requires
            index < self.keys().len(),
        ensures
            key@ == self.keys()[index as int],
    {
        &self.entries[index].0
    }

    pub fn value_at(&self, index: usize) -> (value: &V)
        requires
            index < self.keys().len(),
        ensures
            self@.contains_key(self.keys()[index as int]),
            value@ == self@[self.keys()[index as int]],
    {
        proof {
            use_type_invariant(self);
            self.holds(index as int);
        }
        &self.entries[index].1
    }

    /// The value of the entry at `i` is what the map has for its key.
    proof fn holds(&self, i: int)
        requires
            ascending::<K>(self.keys()),
            0 <= i < self.keys().len(),
        ensures
            self@.contains_key(self.keys()[i]),
            self@[self.keys()[i]] == self.values()[i],
    {
        let k = self.keys()[i];
        assert(self.keys().contains(k));
        let j = self.keys().index_of(k);
        assert(self.keys()[j] == k);
        if i != j {
            K::irreflexive(k);
            if i < j {
                assert(K::before(self.keys()[i], self.keys()[j]));
            } else {
                assert(K::before(self.keys()[j], self.keys()[i]));
            }
        }
    }

    /// The place of `ask` among the keys, and whether it is there.
    fn slot(&self, ask: &K::Ask) -> (slot: (usize, bool))
        ensures
            slot.0 <= self.keys().len(),
            slot.1 ==> slot.0 < self.keys().len() && self.keys()[slot.0 as int] == ask@,
            slot.1 == self@.contains_key(ask@),
            forall|i: int| 0 <= i < slot.0 ==> K::before(#[trigger] self.keys()[i], ask@),
            forall|i: int|
                slot.0 <= i < self.keys().len() && !slot.1 ==> K::before(
                    ask@,
                    #[trigger] self.keys()[i],
                ),
    {
        proof {
            use_type_invariant(self);
        }
        let mut low: usize = 0;
        let mut high: usize = self.entries.len();
        while low < high
            invariant
                low <= high <= self.entries@.len(),
                ascending::<K>(self.keys()),
                forall|i: int| 0 <= i < low ==> K::before(#[trigger] self.keys()[i], ask@),
                forall|i: int|
                    high <= i < self.keys().len() ==> K::before(ask@, #[trigger] self.keys()[i]),
            decreases high - low,
        {
            let middle: usize = low + (high - low) / 2;
            let ghost key = self.keys()[middle as int];
            match self.entries[middle].0.place(ask) {
                Place::Same => {
                    proof {
                        assert(self.keys().contains(key));
                        assert forall|i: int| 0 <= i < middle implies K::before(
                            #[trigger] self.keys()[i],
                            ask@,
                        ) by {
                            assert(K::before(self.keys()[i], self.keys()[middle as int]));
                        }
                    }
                    return (middle, true);
                },
                Place::Before => {
                    proof {
                        assert forall|i: int| 0 <= i < middle + 1 implies K::before(
                            #[trigger] self.keys()[i],
                            ask@,
                        ) by {
                            if i < middle {
                                assert(K::before(self.keys()[i], self.keys()[middle as int]));
                                K::transitive(self.keys()[i], key, ask@);
                            }
                        }
                    }
                    low = middle + 1;
                },
                Place::After => {
                    proof {
                        assert forall|i: int| middle <= i < self.keys().len() implies K::before(
                            ask@,
                            #[trigger] self.keys()[i],
                        ) by {
                            if i > middle {
                                assert(K::before(self.keys()[middle as int], self.keys()[i]));
                                K::transitive(ask@, key, self.keys()[i]);
                            }
                        }
                    }
                    high = middle;
                },
            }
        }
        proof {
            if self.keys().contains(ask@) {
                let i = self.keys().index_of(ask@);
                assert(self.keys()[i] == ask@);
                K::irreflexive(ask@);
            }
        }
        (low, false)
    }

    pub fn get(&self, ask: &K::Ask) -> (value: Option<&V>)
        ensures
            value is Some <==> self@.contains_key(ask@),
            value matches Some(v) ==> v@ == self@[ask@],
    {
        let (index, found) = self.slot(ask);
        if found {
            proof {
                use_type_invariant(self);
                self.holds(index as int);
            }
            Some(&self.entries[index].1)
        } else {
            None
        }
    }

    pub fn contains_key(&self, ask: &K::Ask) -> (found: bool)
        ensures
            found == self@.contains_key(ask@),
    {
        let (_, found) = self.slot(ask);
        found
    }

    /// Sets the value of a key, new or not.
    pub fn insert(&mut self, key: K, value: V)
        ensures
            final(self)@ == old(self)@.insert(key@, value@),
    {
        let (index, found) = self.slot(key.as_ask());
        proof {
            use_type_invariant(&*self);
        }
        let ghost before = *self;
        let ghost k = key@;
        let ghost v = value@;
        let mut entries: Vec<(K, V)> = Vec::new();
        std::mem::swap(&mut entries, &mut self.entries);
        if found {
            entries.set(index, (key, value));
        } else {
            entries.insert(index, (key, value));
        }
        let ghost after = Catalog { entries };
        proof {
            if found {
                assert(after.keys() =~= before.keys());
                assert(after.values() =~= before.values().update(index as int, v));
            } else {
                assert(after.keys() =~= before.keys().insert(index as int, k));
                assert(after.values() =~= before.values().insert(index as int, v));
                assert forall|i: int, j: int| 0 <= i < j < after.keys().len() implies #[trigger] K::before(
                    after.keys()[i],
                    after.keys()[j],
                ) by {
                    let p = if i > index { i - 1 } else { i };
                    let q = if j > index { j - 1 } else { j };
                    if i == index {
                        assert(K::before(k, before.keys()[q]));
                    } else if j == index {
                        assert(K::before(before.keys()[p], k));
                    } else {
                        assert(K::before(before.keys()[p], before.keys()[q]));
                    }
                }
            }
            assert(ascending::<K>(after.keys()));
            after.placed(before, index as int, k, v, found);
        }
        self.entries = entries;
    }

    proof fn placed(&self, before: Self, index: int, k: K::V, v: V::V, found: bool)
        requires
            ascending::<K>(self.keys()),
            ascending::<K>(before.keys()),
            found ==> 0 <= index < before.keys().len() && before.keys()[index] == k
                && self.keys() == before.keys() && self.values() == before.values().update(
                    index,
                    v,
                ),
            !found ==> 0 <= index <= before.keys().len() && self.keys() == before.keys().insert(
                index,
                k,
            ) && self.values() == before.values().insert(index, v),
        ensures
            self@ == before@.insert(k, v),
    {
        self.holds(index);
        assert forall|x: K::V| self@.contains_key(x) <==> before@.insert(k, v).contains_key(x) by {
            if self@.contains_key(x) {
                let i = self.keys().index_of(x);
                assert(self.keys()[i] == x);
                if !found && i != index {
                    let p = if i > index { i - 1 } else { i };
                    assert(before.keys()[p] == x);
                }
            }
            if before@.contains_key(x) {
                let i = before.keys().index_of(x);
                assert(before.keys()[i] == x);
                let p = if !found && i >= index { i + 1 } else { i };
                assert(self.keys()[p] == x);
            }
        }
        assert forall|x: K::V| self@.contains_key(x) implies #[trigger] self@[x] == before@.insert(
            k,
            v,
        )[x] by {
            let i = self.keys().index_of(x);
            assert(self.keys()[i] == x);
            self.holds(i);
            if x != k {
                let p = if !found && i > index { i - 1 } else { i };
                assert(before.keys()[p] == x);
                before.holds(p);
            } else if i != index {
                K::irreflexive(k);
                if i < index {
                    assert(K::before(self.keys()[i], self.keys()[index]));
                } else {
                    assert(K::before(self.keys()[index], self.keys()[i]));
                }
            }
        }
        assert(self@ =~= before@.insert(k, v));
    }

    /// Takes a key out and hands its value over, if it was there.
    pub fn remove(&mut self, ask: &K::Ask) -> (value: Option<V>)
        ensures
            final(self)@ == old(self)@.remove(ask@),
            value is Some <==> old(self)@.contains_key(ask@),
            value matches Some(v) ==> v@ == old(self)@[ask@],
    {
        let (index, found) = self.slot(ask);
        proof {
            use_type_invariant(&*self);
        }
        let ghost before = *self;
        let mut entries: Vec<(K, V)> = Vec::new();
        std::mem::swap(&mut entries, &mut self.entries);
        let mut taken: Option<V> = None;
        if found {
            proof {
                before.holds(index as int);
            }
            let (_, value) = entries.remove(index);
            taken = Some(value);
        }
        let ghost after = Catalog { entries };
        proof {
            if found {
                assert(after.keys() =~= before.keys().remove(index as int));
                assert(after.values() =~= before.values().remove(index as int));
                assert forall|i: int, j: int| 0 <= i < j < after.keys().len() implies #[trigger] K::before(
                    after.keys()[i],
                    after.keys()[j],
                ) by {
                    let p = if i >= index { i + 1 } else { i };
                    let q = if j >= index { j + 1 } else { j };
                    assert(K::before(before.keys()[p], before.keys()[q]));
                }
                assert(ascending::<K>(after.keys()));
                after.taken(before, index as int);
            } else {
                assert(after.keys() =~= before.keys());
                assert(after.values() =~= before.values());
                assert(after@ =~= before@);
                assert(after@ =~= before@.remove(ask@));
            }
        }
        self.entries = entries;
        taken
    }

    proof fn taken(&self, before: Self, index: int)
        requires
            ascending::<K>(self.keys()),
            ascending::<K>(before.keys()),
            0 <= index < before.keys().len(),
            self.keys() == before.keys().remove(index),
            self.values() == before.values().remove(index),
        ensures
            self@ == before@.remove(before.keys()[index]),
    {
        let k = before.keys()[index];
        assert forall|x: K::V| self@.contains_key(x) <==> before@.remove(k).contains_key(x) by {
            if self@.contains_key(x) {
                let i = self.keys().index_of(x);
                assert(self.keys()[i] == x);
                let p = if i >= index { i + 1 } else { i };
                assert(before.keys()[p] == x);
                K::irreflexive(k);
                if p < index {
                    assert(K::before(before.keys()[p], before.keys()[index]));
                } else {
                    assert(K::before(before.keys()[index], before.keys()[p]));
                }
            }
            if before@.remove(k).contains_key(x) {
                let i = before.keys().index_of(x);
                assert(before.keys()[i] == x);
                let p = if i > index { i - 1 } else { i };
                assert(self.keys()[p] == x);
            }
        }
        assert forall|x: K::V| self@.contains_key(x) implies #[trigger] self@[x] == before@.remove(
            k,
        )[x] by {
            let i = self.keys().index_of(x);
            assert(self.keys()[i] == x);
            self.holds(i);
            let p = if i >= index { i + 1 } else { i };
            assert(before.keys()[p] == x);
            before.holds(p);
        }
        assert(self@ =~= before@.remove(k));
    }
}

impl<K: Key + Replica, V: Replica> Replica for Catalog<K, V> {
    fn replica(&self) -> (copy: Self) {
        proof {
            use_type_invariant(self);
        }
        let mut entries: Vec<(K, V)> = Vec::new();
        let mut index: usize = 0;
        while index < self.entries.len()
            invariant
                index <= self.entries@.len(),
                entries@.len() == index,
                forall|i: int|
                    #![trigger entries@[i]]
                    0 <= i < index ==> entries@[i].0@ == self.entries@[i].0@
                        && entries@[i].1@ == self.entries@[i].1@,
            decreases self.entries@.len() - index,
        {
            let copied = (self.entries[index].0.replica(), self.entries[index].1.replica());
            entries.push(copied);
            index += 1;
        }
        let ghost after = Catalog { entries };
        proof {
            assert(after.keys() =~= self.keys());
            assert(after.values() =~= self.values());
            assert(after@ =~= self@);
        }
        Catalog { entries }
    }
}

} // verus!
