//! Keyed collections: a vector whose items have distinct keys, seen as a
//! map from key to item, and sorted listings of one scope of it.
use vstd::prelude::*;

verus! {

/// A key made of a scope (an owner, a group, a conversation; empty where
/// there is none) and an identifier within it.
pub type Key = (Seq<char>, Seq<char>);

/// No two items of `s` have the same key.
pub open spec fn unique_keys<T, K>(s: Seq<T>, key: spec_fn(T) -> K) -> bool {
    forall|i: int, j: int| 0 <= i < s.len() && 0 <= j < s.len() && i != j ==> key(s[i]) != key(s[j])
}

/// The map from key to item that a sequence stands for; a later item wins
/// over an earlier one with the same key.
pub open spec fn seq_to_map<T, K>(s: Seq<T>, key: spec_fn(T) -> K) -> Map<K, T>
    decreases s.len(),
{
    if s.len() == 0 {
        Map::empty()
    } else {
        seq_to_map(s.drop_last(), key).insert(key(s.last()), s.last())
    }
}

/// Some item of `s` has key `k`.
pub open spec fn has_key<T, K>(s: Seq<T>, key: spec_fn(T) -> K, k: K) -> bool {
    exists|i: int| 0 <= i < s.len() && key(s[i]) == k
}

/// The keys of the map are the keys of the items.
pub proof fn lemma_map_dom<T, K>(s: Seq<T>, key: spec_fn(T) -> K, k: K)
    ensures
        seq_to_map(s, key).contains_key(k) <==> has_key(s, key, k),
    decreases s.len(),
{
    if s.len() > 0 {
        lemma_map_dom(s.drop_last(), key, k);
        if has_key(s.drop_last(), key, k) {
            let i = choose|i: int| 0 <= i < s.drop_last().len() && key(s.drop_last()[i]) == k;
            assert(key(s[i]) == k);
        }
        if has_key(s, key, k) && key(s.last()) != k {
            let i = choose|i: int| 0 <= i < s.len() && key(s[i]) == k;
            assert(i < s.len() - 1);
            assert(key(s.drop_last()[i]) == k);
        }
    }
}

/// With distinct keys, the map sends each item's key to that item.
pub proof fn lemma_map_value<T, K>(s: Seq<T>, key: spec_fn(T) -> K, i: int)
    requires
        unique_keys(s, key),
        0 <= i < s.len(),
    ensures
        seq_to_map(s, key).contains_key(key(s[i])),
        seq_to_map(s, key)[key(s[i])] == s[i],
    decreases s.len(),
{
    lemma_map_dom(s, key, key(s[i]));
    if i < s.len() - 1 {
        assert(unique_keys(s.drop_last(), key));
        lemma_map_value(s.drop_last(), key, i);
        assert(key(s[i]) != key(s.last()));
    }
}

/// With distinct keys, the map has as many entries as there are items.
pub proof fn lemma_map_len<T, K>(s: Seq<T>, key: spec_fn(T) -> K)
    requires
        unique_keys(s, key),
    ensures
        seq_to_map(s, key).dom().finite(),
        seq_to_map(s, key).dom().len() == s.len(),
    decreases s.len(),
{
    if s.len() > 0 {
        assert(unique_keys(s.drop_last(), key));
        lemma_map_len(s.drop_last(), key);
        lemma_map_dom(s.drop_last(), key, key(s.last()));
        if has_key(s.drop_last(), key, key(s.last())) {
            let i = choose|i: int| 0 <= i < s.drop_last().len() && key(s.drop_last()[i]) == key(s.last());
            assert(key(s[i]) == key(s.last()));
        }
    } else {
        assert(seq_to_map(s, key).dom() =~= Set::empty());
    }
}

/// Two sequences with distinct keys, the same keys and the same item for
/// each key stand for the same map.
pub proof fn lemma_map_ext<T, K>(s: Seq<T>, t: Seq<T>, key: spec_fn(T) -> K, m: Map<K, T>)
    requires
        unique_keys(t, key),
        forall|k: K| has_key(t, key, k) <==> m.contains_key(k),
        forall|j: int| 0 <= j < t.len() ==> m[key(t[j])] == t[j],
    ensures
        seq_to_map(t, key) == m,
{
    assert forall|k: K| seq_to_map(t, key).contains_key(k) <==> m.contains_key(k) by {
        lemma_map_dom(t, key, k);
    }
    assert forall|k: K| m.contains_key(k) implies seq_to_map(t, key)[k] == m[k] by {
        assert(has_key(t, key, k));
        let j = choose|j: int| 0 <= j < t.len() && key(t[j]) == k;
        lemma_map_value(t, key, j);
    }
    assert(seq_to_map(t, key) =~= m);
}

/// Replacing the item with the same key updates that entry of the map.
pub proof fn lemma_map_update<T, K>(s: Seq<T>, key: spec_fn(T) -> K, i: int, v: T)
    requires
        unique_keys(s, key),
        0 <= i < s.len(),
        key(v) == key(s[i]),
    ensures
        unique_keys(s.update(i, v), key),
        seq_to_map(s.update(i, v), key) == seq_to_map(s, key).insert(key(v), v),
{
    let t = s.update(i, v);
    let m = seq_to_map(s, key).insert(key(v), v);
    assert(unique_keys(t, key)) by {
        assert forall|a: int, b: int| 0 <= a < t.len() && 0 <= b < t.len() && a != b implies key(t[a]) != key(t[b]) by {
            assert(key(t[a]) == key(s[a]));
            assert(key(t[b]) == key(s[b]));
        }
    }
    assert forall|k: K| has_key(t, key, k) <==> m.contains_key(k) by {
        lemma_map_dom(s, key, k);
        if has_key(t, key, k) {
            let j = choose|j: int| 0 <= j < t.len() && key(t[j]) == k;
            assert(key(s[j]) == k);
        }
        if has_key(s, key, k) {
            let j = choose|j: int| 0 <= j < s.len() && key(s[j]) == k;
            assert(key(t[j]) == k);
        }
        if k == key(v) {
            assert(key(t[i]) == k);
        }
    }
    assert forall|j: int| 0 <= j < t.len() implies m[key(t[j])] == t[j] by {
        if j != i {
            lemma_map_value(s, key, j);
        }
    }
    lemma_map_ext(s, t, key, m);
}

/// Appending an item with a new key adds that entry.
pub proof fn lemma_map_push<T, K>(s: Seq<T>, key: spec_fn(T) -> K, v: T)
    requires
        unique_keys(s, key),
        !has_key(s, key, key(v)),
    ensures
        unique_keys(s.push(v), key),
        seq_to_map(s.push(v), key) == seq_to_map(s, key).insert(key(v), v),
{
    let t = s.push(v);
    assert(t.drop_last() =~= s);
    assert forall|a: int, b: int| 0 <= a < t.len() && 0 <= b < t.len() && a != b implies key(t[a]) != key(t[b]) by {
        if a == s.len() {
            assert(key(t[b]) == key(s[b]));
        } else if b == s.len() {
            assert(key(t[a]) == key(s[a]));
        }
    }
}

/// Removing the item at `i` removes its key from the map.
pub proof fn lemma_map_remove<T, K>(s: Seq<T>, key: spec_fn(T) -> K, i: int)
    requires
        unique_keys(s, key),
        0 <= i < s.len(),
    ensures
        unique_keys(s.remove(i), key),
        seq_to_map(s.remove(i), key) == seq_to_map(s, key).remove(key(s[i])),
{
    let t = s.remove(i);
    let m = seq_to_map(s, key).remove(key(s[i]));
    assert(unique_keys(t, key)) by {
        assert forall|a: int, b: int| 0 <= a < t.len() && 0 <= b < t.len() && a != b implies key(t[a]) != key(t[b]) by {
            let a2 = if a < i { a } else { a + 1 };
            let b2 = if b < i { b } else { b + 1 };
            assert(t[a] == s[a2]);
            assert(t[b] == s[b2]);
        }
    }
    assert forall|k: K| has_key(t, key, k) <==> m.contains_key(k) by {
        lemma_map_dom(s, key, k);
        if has_key(t, key, k) {
            let j = choose|j: int| 0 <= j < t.len() && key(t[j]) == k;
            let j2 = if j < i { j } else { j + 1 };
            assert(t[j] == s[j2]);
            assert(key(s[j2]) == k);
        }
        if has_key(s, key, k) && k != key(s[i]) {
            let j = choose|j: int| 0 <= j < s.len() && key(s[j]) == k;
            assert(j != i);
            let j2 = if j < i { j } else { j - 1 };
            assert(t[j2] == s[j]);
        }
    }
    assert forall|j: int| 0 <= j < t.len() implies m[key(t[j])] == t[j] by {
        let j2 = if j < i { j } else { j + 1 };
        assert(t[j] == s[j2]);
        lemma_map_value(s, key, j2);
    }
    lemma_map_ext(s, t, key, m);
}

/// A value that can be copied exactly.
pub trait Duplicate: Sized {
    fn duplicate(&self) -> (r: Self)
        ensures
            r == *self,
    ;
}

/// An item with a key made of a scope and an identifier; stored items can be
/// looked up by key.
pub trait Keyed: Duplicate {
    spec fn spec_key(&self) -> Key;

    fn key_is(&self, scope: &str, id: &str) -> (r: bool)
        ensures
            r == (self.spec_key() == (scope@, id@)),
    ;

    fn same_key(&self, other: &Self) -> (r: bool)
        ensures
            r == (self.spec_key() == other.spec_key()),
    ;

    fn in_scope(&self, scope: &str) -> (r: bool)
        ensures
            r == (self.spec_key().0 == scope@),
    ;
}

/// A strict order on items, total on items with different keys; listings
/// come out in this order.
pub trait ListOrder: Keyed {
    spec fn spec_before(&self, other: &Self) -> bool;

    fn before(&self, other: &Self) -> (r: bool)
        ensures
            r == self.spec_before(other),
    ;

    proof fn lemma_strict_total(a: Self, b: Self, c: Self)
        ensures
            !a.spec_before(&a),
            a.spec_before(&b) && b.spec_before(&c) ==> a.spec_before(&c),
            a.spec_key() != b.spec_key() ==> a.spec_before(&b) || b.spec_before(&a),
    ;
}

pub open spec fn key_of<T: Keyed>() -> spec_fn(T) -> Key {
    |t: T| t.spec_key()
}

/// `s` is strictly increasing in the list order.
pub open spec fn sorted_strict<T: ListOrder>(s: Seq<T>) -> bool {
    forall|i: int, j: int| 0 <= i < j < s.len() ==> s[i].spec_before(&s[j])
}

/// `r` lists exactly the entries of `m` whose key passes `keep`, each once,
/// in the list order.
pub open spec fn lists_exactly<T: ListOrder>(
    r: Seq<T>,
    m: Map<Key, T>,
    keep: spec_fn(Key) -> bool,
) -> bool {
    &&& sorted_strict(r)
    &&& forall|i: int|
        0 <= i < r.len() ==> m.contains_key(#[trigger] r[i].spec_key()) && m[r[i].spec_key()] == r[i]
            && keep(r[i].spec_key())
    &&& forall|k: Key| m.contains_key(k) && keep(k) ==> exists|i: int| 0 <= i < r.len() && #[trigger] r[i].spec_key() == k
}

/// Two strictly sorted listings of the same entries are the same listing.
pub proof fn lemma_listing_unique<T: ListOrder>(
    r1: Seq<T>,
    r2: Seq<T>,
    m: Map<Key, T>,
    keep: spec_fn(Key) -> bool,
)
    requires
        lists_exactly(r1, m, keep),
        lists_exactly(r2, m, keep),
    ensures
        r1 == r2,
{
    assert forall|i: int| 0 <= i < r1.len() implies r2.contains(#[trigger] r1[i]) by {
        let k = r1[i].spec_key();
        let j = choose|j: int| 0 <= j < r2.len() && #[trigger] r2[j].spec_key() == k;
        assert(r2[j] == m[k]);
    }
    assert forall|j: int| 0 <= j < r2.len() implies r1.contains(#[trigger] r2[j]) by {
        let k = r2[j].spec_key();
        let i = choose|i: int| 0 <= i < r1.len() && #[trigger] r1[i].spec_key() == k;
        assert(r1[i] == m[k]);
    }
    lemma_sorted_same_elements(r1, r2);
}

/// Two strictly sorted sequences with the same elements are equal.
pub proof fn lemma_sorted_same_elements<T: ListOrder>(r1: Seq<T>, r2: Seq<T>)
    requires
        sorted_strict(r1),
        sorted_strict(r2),
        forall|i: int| 0 <= i < r1.len() ==> r2.contains(#[trigger] r1[i]),
        forall|j: int| 0 <= j < r2.len() ==> r1.contains(#[trigger] r2[j]),
    ensures
        r1 == r2,
    decreases r1.len() + r2.len(),
{
    if r1.len() > 0 && r2.len() > 0 {
        // The first elements are the least ones, hence equal.
        let a = r1[0];
        let b = r2[0];
        assert(r2.contains(r1[0]));
        assert(r1.contains(r2[0]));
        let jb = choose|j: int| 0 <= j < r2.len() && r2[j] == a;
        let ia = choose|i: int| 0 <= i < r1.len() && r1[i] == b;
        T::lemma_strict_total(a, b, a);
        T::lemma_strict_total(b, a, b);
        if jb > 0 {
            assert(b.spec_before(&a));
        }
        if ia > 0 {
            assert(a.spec_before(&b));
        }
        assert(a == b);
        let t1 = r1.drop_first();
        let t2 = r2.drop_first();
        assert forall|i: int| 0 <= i < t1.len() implies t2.contains(#[trigger] t1[i]) by {
            assert(r2.contains(r1[i + 1]));
            let j = choose|j: int| 0 <= j < r2.len() && r2[j] == r1[i + 1];
            T::lemma_strict_total(r1[0], r1[i + 1], r1[0]);
            if j == 0 {
                assert(r1[0].spec_before(&r1[i + 1]));
                assert(false);
            }
            assert(t2[j - 1] == t1[i]);
        }
        assert forall|j: int| 0 <= j < t2.len() implies t1.contains(#[trigger] t2[j]) by {
            assert(r1.contains(r2[j + 1]));
            let i = choose|i: int| 0 <= i < r1.len() && r1[i] == r2[j + 1];
            T::lemma_strict_total(r2[0], r2[j + 1], r2[0]);
            if i == 0 {
                assert(r2[0].spec_before(&r2[j + 1]));
                assert(false);
            }
            assert(t1[i - 1] == t2[j]);
        }
        lemma_sorted_same_elements(t1, t2);
        assert(r1 =~= seq![a] + t1);
        assert(r2 =~= seq![b] + t2);
    } else if r1.len() > 0 {
        assert(r2.contains(r1[0]));
    } else if r2.len() > 0 {
        assert(r1.contains(r2[0]));
    } else {
        assert(r1 =~= r2);
    }
}

/// Read after write, for every store of the library (each stores an item
/// under its key and removes by key): after an item is stored, reading its
/// key gives it back and reading any other key gives what it gave before;
/// after a key is removed, reading it gives nothing.
pub proof fn law_read_after_write<T: Keyed>(m: Map<Key, T>, item: T, other: Key)
    ensures
        m.insert(item.spec_key(), item).contains_key(item.spec_key()),
        m.insert(item.spec_key(), item)[item.spec_key()] == item,
        other != item.spec_key() ==> m.insert(item.spec_key(), item).contains_key(other) == m.contains_key(
            other,
        ),
        other != item.spec_key() && m.contains_key(other) ==> m.insert(item.spec_key(), item)[other]
            == m[other],
        !m.remove(other).contains_key(other),
{
}

/// A finite map whose every entry is stored under the entry's own key: what
/// every store stands for.
pub open spec fn keyed_map<T: Keyed>(m: Map<Key, T>) -> bool {
    &&& m.dom().finite()
    &&& forall|k: Key| #[trigger] m.contains_key(k) ==> m[k].spec_key() == k
}

/// The map of any sequence is keyed.
pub proof fn lemma_seq_to_map_keyed<T: Keyed>(s: Seq<T>)
    ensures
        keyed_map(seq_to_map(s, key_of::<T>())),
    decreases s.len(),
{
    if s.len() > 0 {
        lemma_seq_to_map_keyed(s.drop_last());
    } else {
        assert(seq_to_map(s, key_of::<T>()).dom() =~= Set::empty());
    }
}

/// Where an item with a new key goes in a strictly sorted sequence: after
/// the items before it and before the items after it.
proof fn lemma_insert_position<T: ListOrder>(r: Seq<T>, x: T) -> (p: int)
    requires
        sorted_strict(r),
        forall|i: int| 0 <= i < r.len() ==> #[trigger] r[i].spec_key() != x.spec_key(),
    ensures
        0 <= p <= r.len(),
        forall|i: int| 0 <= i < p ==> #[trigger] r[i].spec_before(&x),
        forall|i: int| p <= i < r.len() ==> x.spec_before(&#[trigger] r[i]),
    decreases r.len(),
{
    if r.len() == 0 {
        0
    } else {
        let n = r.len() - 1;
        let q = lemma_insert_position(r.drop_last(), x);
        T::lemma_strict_total(r[n], x, r[n]);
        if r[n].spec_before(&x) {
            assert forall|i: int| 0 <= i < r.len() implies #[trigger] r[i].spec_before(&x) by {
                if i < n {
                    T::lemma_strict_total(r[i], r[n], x);
                }
            }
            r.len() as int
        } else {
            assert forall|i: int| q <= i < r.len() implies x.spec_before(&#[trigger] r[i]) by {
                if i < n {
                    assert(r.drop_last()[i] == r[i]);
                }
            }
            assert forall|i: int| 0 <= i < q implies #[trigger] r[i].spec_before(&x) by {
                assert(r.drop_last()[i] == r[i]);
            }
            q
        }
    }
}

/// Every keyed map has a listing of the entries whose key passes `keep`.
pub proof fn lemma_listing_exists<T: ListOrder>(m: Map<Key, T>, keep: spec_fn(Key) -> bool)
    requires
        keyed_map(m),
    ensures
        exists|r: Seq<T>| lists_exactly(r, m, keep),
    decreases m.dom().len(),
{
    if m.dom().len() == 0 {
        assert(m.dom() =~= Set::empty());
        assert(lists_exactly(Seq::<T>::empty(), m, keep));
    } else {
        let k = m.dom().choose();
        let m2 = m.remove(k);
        assert(m2.dom() =~= m.dom().remove(k));
        lemma_listing_exists(m2, keep);
        let r2 = choose|r: Seq<T>| lists_exactly(r, m2, keep);
        if !keep(k) {
            assert forall|k2: Key| m.contains_key(k2) && keep(k2) implies exists|i: int|
                0 <= i < r2.len() && #[trigger] r2[i].spec_key() == k2 by {
                assert(m2.contains_key(k2));
            }
            assert(lists_exactly(r2, m, keep));
        } else {
            let x = m[k];
            assert forall|i: int| 0 <= i < r2.len() implies #[trigger] r2[i].spec_key() != x.spec_key() by {
                assert(m2.contains_key(r2[i].spec_key()));
            }
            let p = lemma_insert_position(r2, x);
            let r = r2.insert(p, x);
            assert forall|i: int, j: int| 0 <= i < j < r.len() implies r[i].spec_before(&r[j]) by {
                if j < p {
                    assert(r[i] == r2[i] && r[j] == r2[j]);
                } else if j == p {
                    assert(r[i] == r2[i]);
                } else if i < p {
                    assert(r[i] == r2[i] && r[j] == r2[j - 1]);
                    T::lemma_strict_total(r2[i], x, r2[j - 1]);
                } else if i == p {
                    assert(r[j] == r2[j - 1]);
                } else {
                    assert(r[i] == r2[i - 1] && r[j] == r2[j - 1]);
                }
            }
            assert forall|i: int| 0 <= i < r.len() implies m.contains_key(#[trigger] r[i].spec_key())
                && m[r[i].spec_key()] == r[i] && keep(r[i].spec_key()) by {
                if i < p {
                    assert(r[i] == r2[i]);
                } else if i > p {
                    assert(r[i] == r2[i - 1]);
                }
            }
            assert forall|k2: Key| m.contains_key(k2) && keep(k2) implies exists|i: int|
                0 <= i < r.len() && #[trigger] r[i].spec_key() == k2 by {
                if k2 == k {
                    assert(r[p].spec_key() == k2);
                } else {
                    assert(m2.contains_key(k2));
                    let j = choose|j: int| 0 <= j < r2.len() && #[trigger] r2[j].spec_key() == k2;
                    if j < p {
                        assert(r[j] == r2[j]);
                    } else {
                        assert(r[j + 1] == r2[j]);
                    }
                }
            }
            assert(lists_exactly(r, m, keep));
        }
    }
}

/// A collection of items with distinct keys, seen as a map from key to
/// item.
pub struct KeyedStore<T: Keyed> {
    items: Vec<T>,
}

impl<T: Keyed> KeyedStore<T> {
    #[verifier::type_invariant]
    closed spec fn wf(&self) -> bool {
        unique_keys(self.items@, key_of::<T>())
    }

    pub closed spec fn view(&self) -> Map<Key, T> {
        seq_to_map(self.items@, key_of::<T>())
    }

    /// A store's map is keyed.
    pub proof fn lemma_keyed(&self)
        ensures
            keyed_map(self.view()),
    {
        lemma_seq_to_map_keyed(self.items@);
    }

    pub fn new() -> (r: KeyedStore<T>)
        ensures
            r.view() == Map::<Key, T>::empty(),
    {
        KeyedStore { items: Vec::new() }
    }

    /// Number of entries.
    pub fn len(&self) -> (r: usize)
        ensures
            self.view().dom().finite(),
            r == self.view().dom().len(),
    {
        proof {
            use_type_invariant(self);
        }
        proof {
            lemma_map_len(self.items@, key_of::<T>());
        }
        self.items.len()
    }

    fn find(&self, scope: &str, id: &str) -> (r: Option<usize>)
        ensures
            r matches Some(i) ==> i < self.items@.len() && self.items@[i as int].spec_key() == (
                scope@,
                id@,
            ),
            r is None ==> !self.view().contains_key((scope@, id@)),
    {
        proof {
            use_type_invariant(self);
        }
        let mut i: usize = 0;
        while i < self.items.len()
            invariant
                i <= self.items@.len(),
                forall|j: int| 0 <= j < i ==> self.items@[j].spec_key() != (scope@, id@),
            decreases self.items.len() - i,
        {
            if self.items[i].key_is(scope, id) {
                return Some(i);
            }
            i = i + 1;
        }
        proof {
            lemma_map_dom(self.items@, key_of::<T>(), (scope@, id@));
        }
        None
    }

    fn find_key_of(&self, v: &T) -> (r: Option<usize>)
        ensures
            r matches Some(i) ==> i < self.items@.len() && self.items@[i as int].spec_key()
                == v.spec_key(),
            r is None ==> !has_key(self.items@, key_of::<T>(), v.spec_key()),
    {
        proof {
            use_type_invariant(self);
        }
        let mut i: usize = 0;
        while i < self.items.len()
            invariant
                i <= self.items@.len(),
                forall|j: int| 0 <= j < i ==> self.items@[j].spec_key() != v.spec_key(),
            decreases self.items.len() - i,
        {
            if self.items[i].same_key(v) {
                return Some(i);
            }
            i = i + 1;
        }
        None
    }

    /// The entry with the given key, if any.
    pub fn get(&self, scope: &str, id: &str) -> (r: Option<&T>)
        ensures
            r is Some <==> self.view().contains_key((scope@, id@)),
            r matches Some(v) ==> self.view()[(scope@, id@)] == *v && v.spec_key() == (scope@, id@),
    {
        proof {
            use_type_invariant(self);
        }
        match self.find(scope, id) {
            Some(i) => {
                proof {
                    lemma_map_value(self.items@, key_of::<T>(), i as int);
                }
                Some(&self.items[i])
            },
            None => None,
        }
    }

    /// Inserts `v` under its key, replacing what was there.
    pub fn upsert(&mut self, v: T)
        ensures
            final(self).view() == old(self).view().insert(v.spec_key(), v),
    {
        proof {
            use_type_invariant(&*self);
        }
        let found = self.find_key_of(&v);
        let mut items: Vec<T> = Vec::new();
        std::mem::swap(&mut items, &mut self.items);
        match found {
            Some(i) => {
                proof {
                    lemma_map_update(items@, key_of::<T>(), i as int, v);
                }
                items.set(i, v);
            },
            None => {
                proof {
                    lemma_map_push(items@, key_of::<T>(), v);
                }
                items.push(v);
            },
        }
        self.items = items;
    }

    /// Removes the entry with the given key, if any.
    pub fn remove(&mut self, scope: &str, id: &str)
        ensures
            final(self).view() == old(self).view().remove((scope@, id@)),
    {
        proof {
            use_type_invariant(&*self);
        }
        match self.find(scope, id) {
            Some(i) => {
                proof {
                    lemma_map_remove(self.items@, key_of::<T>(), i as int);
                }
                let mut items: Vec<T> = Vec::new();
        std::mem::swap(&mut items, &mut self.items);
                items.remove(i);
                self.items = items;
            },
            None => {
                assert(self.view() =~= self.view().remove((scope@, id@)));
            },
        }
    }

    /// Removes the entry with the same key as `v`, if any.
    pub fn remove_key_of(&mut self, v: &T)
        ensures
            final(self).view() == old(self).view().remove(v.spec_key()),
    {
        proof {
            use_type_invariant(&*self);
        }
        match self.find_key_of(v) {
            Some(i) => {
                proof {
                    lemma_map_remove(self.items@, key_of::<T>(), i as int);
                }
                let mut items: Vec<T> = Vec::new();
                std::mem::swap(&mut items, &mut self.items);
                items.remove(i);
                self.items = items;
            },
            None => {
                proof {
                    lemma_map_dom(self.items@, key_of::<T>(), v.spec_key());
                }
                assert(self.view() =~= self.view().remove(v.spec_key()));
            },
        }
    }

    /// Removes every entry of the given scope.
    pub fn remove_scope(&mut self, scope: &str)
        ensures
            final(self).view() == old(self).view().restrict(
                old(self).view().dom().filter(|k: Key| k.0 != scope@),
            ),
    {
        proof {
            use_type_invariant(&*self);
        }
        let ghost m = self.view();
        let ghost orig = self.items@;
        let mut i: usize = 0;
        let mut kept: Vec<T> = Vec::new();
        while i < self.items.len()
            invariant
                orig == self.items@,
                unique_keys(orig, key_of::<T>()),
                i <= orig.len(),
                unique_keys(kept@, key_of::<T>()),
                forall|x: T| #[trigger] kept@.contains(x) ==> kept_from(x, orig, i as int, scope@),
                forall|a: int|
                    0 <= a < i && orig[a].spec_key().0 != scope@ ==> kept@.contains(#[trigger] orig[a]),
            decreases orig.len() - i,
        {
            if !self.items[i].in_scope(scope) {
                let v = self.items[i].duplicate();
                let ghost old_kept = kept@;
                proof {
                    assert forall|j: int| 0 <= j < kept@.len() implies key_of::<T>()(kept@[j]) != key_of::<T>()(v) by {
                        assert(kept@.contains(kept@[j]));
                        let a = choose|a: int| 0 <= a < i && orig[a] == kept@[j] && (orig[a].spec_key().0 != scope@);
                        assert(a != i);
                    }
                    assert(!has_key(kept@, key_of::<T>(), v.spec_key()));
                    lemma_map_push(kept@, key_of::<T>(), v);
                }
                kept.push(v);
                proof {
                    assert forall|x: T| #[trigger] kept@.contains(x) implies kept_from(x, orig, i + 1, scope@) by {
                        let j = choose|j: int| 0 <= j < kept@.len() && kept@[j] == x;
                        if j < old_kept.len() {
                            assert(old_kept.contains(x));
                        }
                    }
                    assert forall|a: int|
                        0 <= a < i + 1 && orig[a].spec_key().0 != scope@ implies kept@.contains(#[trigger] orig[a]) by {
                        if a < i {
                            assert(old_kept.contains(orig[a]));
                            let j = choose|j: int| 0 <= j < old_kept.len() && old_kept[j] == orig[a];
                            assert(kept@[j] == orig[a]);
                        } else {
                            assert(kept@[old_kept.len() as int] == orig[a]);
                        }
                    }
                }
            } else {
                proof {
                    assert forall|x: T| #[trigger] kept@.contains(x) implies kept_from(x, orig, i + 1, scope@) by {
                        assert(kept_from(x, orig, i as int, scope@));
                    }
                }
            }
            i = i + 1;
        }
        let ghost target = m.restrict(m.dom().filter(|k: Key| k.0 != scope@));
        proof {
            assert forall|k: Key| has_key(kept@, key_of::<T>(), k) <==> target.contains_key(k) by {
                lemma_map_dom(orig, key_of::<T>(), k);
                if has_key(kept@, key_of::<T>(), k) {
                    let j = choose|j: int| 0 <= j < kept@.len() && key_of::<T>()(kept@[j]) == k;
                    assert(kept@.contains(kept@[j]));
                    let a = choose|a: int| 0 <= a < orig.len() && orig[a] == kept@[j] && (orig[a].spec_key().0 != scope@);
                    assert(key_of::<T>()(orig[a]) == k);
                }
                if target.contains_key(k) {
                    let a = choose|a: int| 0 <= a < orig.len() && key_of::<T>()(orig[a]) == k;
                    assert(kept@.contains(orig[a]));
                    let j = choose|j: int| 0 <= j < kept@.len() && kept@[j] == orig[a];
                    assert(key_of::<T>()(kept@[j]) == k);
                }
            }
            assert forall|j: int| 0 <= j < kept@.len() implies target[key_of::<T>()(kept@[j])] == kept@[j] by {
                assert(kept@.contains(kept@[j]));
                let a = choose|a: int| 0 <= a < orig.len() && orig[a] == kept@[j] && (orig[a].spec_key().0 != scope@);
                lemma_map_value(orig, key_of::<T>(), a);
            }
            lemma_map_ext(orig, kept@, key_of::<T>(), target);
        }
        self.items = kept;
    }

    /// The entries of one scope, copied, in the list order.
    pub fn list_scope(&self, scope: &str) -> (r: Vec<T>)
        where
            T: ListOrder,
        ensures
            lists_exactly(r@, self.view(), |k: Key| k.0 == scope@),
    {
        let r = self.list_filtered(scope, false);
        assert((|k: Key| false || k.0 == scope@) =~= (|k: Key| k.0 == scope@));
        r
    }

    /// Every entry, copied, in the list order.
    pub fn list_all(&self) -> (r: Vec<T>)
        where
            T: ListOrder,
        ensures
            lists_exactly(r@, self.view(), |k: Key| true),
    {
        let r = self.list_filtered("", true);
        assert((|k: Key| true || k.0 == ""@) =~= (|k: Key| true));
        r
    }

    /// The entries that are in the scope, or all of them when `all` holds.
    fn list_filtered(&self, scope: &str, all: bool) -> (r: Vec<T>)
        where
            T: ListOrder,
        ensures
            lists_exactly(r@, self.view(), |k: Key| all || k.0 == scope@),
    {
        proof {
            use_type_invariant(self);
        }
        let ghost m = self.view();
        let ghost items = self.items@;
        let mut out: Vec<T> = Vec::new();
        let mut i: usize = 0;
        while i < self.items.len()
            invariant
                items == self.items@,
                unique_keys(items, key_of::<T>()),
                i <= items.len(),
                sorted_strict(out@),
                forall|x: T| #[trigger] out@.contains(x) ==> came_from(x, items, i as int, scope@, all),
                forall|a: int|
                    0 <= a < i && (all || items[a].spec_key().0 == scope@) ==> out@.contains(#[trigger] items[a]),
            decreases self.items.len() - i,
        {
            if all || self.items[i].in_scope(scope) {
                let v = self.items[i].duplicate();
                let ghost old_out = out@;
                proof {
                    assert forall|q: int| 0 <= q < out@.len() implies #[trigger] out@[q].spec_key() != v.spec_key() by {
                        assert(out@.contains(out@[q]));
                        let a = choose|a: int| 0 <= a < i && items[a] == out@[q] && (all || items[a].spec_key().0 == scope@);
                        assert(a != i);
                    }
                }
                insert_sorted(&mut out, v);
                proof {
                    assert forall|x: T| #[trigger] out@.contains(x) implies came_from(x, items, i + 1, scope@, all) by {
                        if x != v {
                            assert(old_out.contains(x));
                        }
                    }
                    assert forall|a: int|
                        0 <= a < i + 1 && (all || items[a].spec_key().0 == scope@) implies out@.contains(#[trigger] items[a]) by {
                        if a < i {
                            assert(old_out.contains(items[a]));
                        }
                    }
                }
            } else {
                proof {
                    assert forall|x: T| #[trigger] out@.contains(x) implies came_from(x, items, i + 1, scope@, all) by {
                        assert(came_from(x, items, i as int, scope@, all));
                    }
                }
            }
            i = i + 1;
        }
        proof {
            assert forall|j: int| 0 <= j < out@.len() implies m.contains_key(
                #[trigger] out@[j].spec_key(),
            ) && m[out@[j].spec_key()] == out@[j] && (all || out@[j].spec_key().0 == scope@) by {
                assert(out@.contains(out@[j]));
                let a = choose|a: int| 0 <= a < items.len() && items[a] == out@[j] && (all || items[a].spec_key().0 == scope@);
                lemma_map_value(items, key_of::<T>(), a);
            }
            assert forall|k: Key| m.contains_key(k) && (all || k.0 == scope@) implies exists|j: int|
                0 <= j < out@.len() && #[trigger] out@[j].spec_key() == k by {
                lemma_map_dom(items, key_of::<T>(), k);
                let a = choose|a: int| 0 <= a < items.len() && key_of::<T>()(items[a]) == k;
                assert(out@.contains(items[a]));
                let j = choose|j: int| 0 <= j < out@.len() && out@[j] == items[a];
                assert(out@[j].spec_key() == k);
            }
        }
        out
    }
}

/// `x` is one of the first `i` items, outside the given scope.
pub open spec fn kept_from<T: Keyed>(x: T, items: Seq<T>, i: int, scope: Seq<char>) -> bool {
    exists|a: int| 0 <= a < i && items[a] == x && items[a].spec_key().0 != scope
}

/// `x` is one of the first `i` items, and its scope is the given one unless
/// `all` holds.
pub open spec fn came_from<T: Keyed>(x: T, items: Seq<T>, i: int, scope: Seq<char>, all: bool) -> bool {
    exists|a: int| 0 <= a < i && items[a] == x && (all || items[a].spec_key().0 == scope)
}

/// Inserts `v` into a strictly sorted vector at its place.
pub fn insert_sorted<T: ListOrder>(out: &mut Vec<T>, v: T)
    requires
        sorted_strict(old(out)@),
        forall|q: int| 0 <= q < old(out)@.len() ==> #[trigger] old(out)@[q].spec_key() != v.spec_key(),
    ensures
        sorted_strict(final(out)@),
        final(out)@.len() == old(out)@.len() + 1,
        forall|x: T| #[trigger] final(out)@.contains(x) <==> (old(out)@.contains(x) || x == v),
{
    let mut p: usize = 0;
    while p < out.len() && !v.before(&out[p])
        invariant
            p <= out@.len(),
            forall|q: int| 0 <= q < p ==> !v.spec_before(&out@[q]),
        decreases out.len() - p,
    {
        p = p + 1;
    }
    let ghost old_out = out@;
    proof {
        assert forall|q: int| 0 <= q < p implies old_out[q].spec_before(&v) by {
            T::lemma_strict_total(old_out[q], v, v);
        }
        assert forall|q: int| p <= q < old_out.len() implies v.spec_before(&old_out[q]) by {
            if q > p {
                T::lemma_strict_total(v, old_out[p as int], old_out[q]);
            }
        }
    }
    out.insert(p, v);
    proof {
        assert forall|x: int, y: int| 0 <= x < y < out@.len() implies out@[x].spec_before(&out@[y]) by {
            if x < p && y > p {
                T::lemma_strict_total(out@[x], v, out@[y]);
            }
        }
        assert forall|x: T| #[trigger] out@.contains(x) <==> (old_out.contains(x) || x == v) by {
            if out@.contains(x) {
                let j = choose|j: int| 0 <= j < out@.len() && out@[j] == x;
                if j < p {
                    assert(old_out[j] == x);
                } else if j > p {
                    assert(old_out[j - 1] == x);
                }
            }
            if old_out.contains(x) {
                let j = choose|j: int| 0 <= j < old_out.len() && old_out[j] == x;
                if j < p {
                    assert(out@[j] == x);
                } else {
                    assert(out@[j + 1] == x);
                }
            }
            if x == v {
                assert(out@[p as int] == x);
            }
        }
    }
}

} // verus!
