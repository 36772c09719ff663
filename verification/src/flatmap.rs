//! A map stored as a vector of key-value pairs kept sorted by key, found by
//! binary search. Keys carry a proved total order.

use vstd::prelude::*;

verus! {

/// The outcome of a three-way comparison.
#[derive(Clone, Copy, Debug, PartialEq, Eq, Structural)]
pub enum Comparison {
    Lt,
    Eq,
    Gt,
}

/// A key type with a proved total order and an executable three-way
/// comparison that realizes it.
pub trait OrderedKey: Sized {
    /// The order the comparison realizes.
    spec fn le(self, other: Self) -> bool;

    /// The order is total.
    proof fn lemma_total(a: Self, b: Self)
        ensures
            a.le(b) || b.le(a),
    ;

    /// The order is antisymmetric.
    proof fn lemma_antisym(a: Self, b: Self)
        requires
            a.le(b),
            b.le(a),
        ensures
            a == b,
    ;

    /// The order is transitive.
    proof fn lemma_trans(a: Self, b: Self, c: Self)
        requires
            a.le(b),
            b.le(c),
        ensures
            a.le(c),
    ;

    /// Three-way comparison.
    fn compare(&self, other: &Self) -> (c: Comparison)
        ensures
            c is Eq <==> *self == *other,
            c is Lt <==> (self.le(*other) && *self != *other),
            c is Gt <==> (other.le(*self) && *self != *other),
    ;
}

impl OrderedKey for i32 {
    open spec fn le(self, other: Self) -> bool {
        self <= other
    }

    proof fn lemma_total(a: Self, b: Self) {
    }

    proof fn lemma_antisym(a: Self, b: Self) {
    }

    proof fn lemma_trans(a: Self, b: Self, c: Self) {
    }

    fn compare(&self, other: &Self) -> (c: Comparison) {
        if *self < *other {
            Comparison::Lt
        } else if *self == *other {
            Comparison::Eq
        } else {
            Comparison::Gt
        }
    }
}

impl OrderedKey for u64 {
    open spec fn le(self, other: Self) -> bool {
        self <= other
    }

    proof fn lemma_total(a: Self, b: Self) {
    }

    proof fn lemma_antisym(a: Self, b: Self) {
    }

    proof fn lemma_trans(a: Self, b: Self, c: Self) {
    }

    fn compare(&self, other: &Self) -> (c: Comparison) {
        if *self < *other {
            Comparison::Lt
        } else if *self == *other {
            Comparison::Eq
        } else {
            Comparison::Gt
        }
    }
}

impl OrderedKey for usize {
    open spec fn le(self, other: Self) -> bool {
        self <= other
    }

    proof fn lemma_total(a: Self, b: Self) {
    }

    proof fn lemma_antisym(a: Self, b: Self) {
    }

    proof fn lemma_trans(a: Self, b: Self, c: Self) {
    }

    fn compare(&self, other: &Self) -> (c: Comparison) {
        if *self < *other {
            Comparison::Lt
        } else if *self == *other {
            Comparison::Eq
        } else {
            Comparison::Gt
        }
    }
}

/// Relies on Vec::capacity: the vector's capacity is always at least its
/// length, as its documentation states.
#[verifier::external_body]
fn vec_capacity<T>(v: &Vec<T>) -> (r: usize)
    ensures
        r >= v@.len(),
{
    v.capacity()
}

/// Strictly below in the key order.
pub open spec fn key_lt<K: OrderedKey>(a: K, b: K) -> bool {
    a.le(b) && a != b
}

/// The entries are sorted by key, with no key repeated.
pub open spec fn entries_sorted<K: OrderedKey, V>(s: Seq<(K, V)>) -> bool {
    forall|i: int, j: int|
        0 <= i < j < s.len() ==> key_lt((#[trigger] s[i]).0, (#[trigger] s[j]).0)
}

/// Whether some entry carries the key.
pub open spec fn key_present<K, V>(s: Seq<(K, V)>, k: K) -> bool {
    exists|i: int| 0 <= i < s.len() && (#[trigger] s[i]).0 == k
}

/// The value carried with the key, where one is present.
pub open spec fn entry_value<K, V>(s: Seq<(K, V)>, k: K) -> V {
    s[choose|i: int| 0 <= i < s.len() && (#[trigger] s[i]).0 == k].1
}

/// The entries, read as a map.
pub open spec fn map_of_entries<K, V>(s: Seq<(K, V)>) -> Map<K, V> {
    Map::new(|k: K| key_present(s, k), |k: K| entry_value(s, k))
}

/// No key repeats in a sorted entry sequence.
pub proof fn lemma_sorted_keys_unique<K: OrderedKey, V>(s: Seq<(K, V)>)
    requires
        entries_sorted(s),
    ensures
        forall|i: int, j: int|
            0 <= i < s.len() && 0 <= j < s.len() && i != j ==> (#[trigger] s[i]).0 != (
            #[trigger] s[j]).0,
{
}

/// Reading the map at an entry's key yields that entry's value.
proof fn lemma_map_at_entry<K: OrderedKey, V>(s: Seq<(K, V)>, i: int)
    requires
        entries_sorted(s),
        0 <= i < s.len(),
    ensures
        map_of_entries(s).dom().contains(s[i].0),
        map_of_entries(s)[s[i].0] == s[i].1,
{
    lemma_sorted_keys_unique(s);
    assert(key_present(s, s[i].0));
    let j = choose|j: int| 0 <= j < s.len() && (#[trigger] s[j]).0 == s[i].0;
    assert(j == i);
}

/// A map stored flat: a vector of pairs sorted by key.
pub struct FlatMap<K: OrderedKey, V> {
    entries: Vec<(K, V)>,
}

impl<K: OrderedKey, V> View for FlatMap<K, V> {
    type V = Map<K, V>;

    closed spec fn view(&self) -> Map<K, V> {
        map_of_entries(self.entries@)
    }
}

impl<K: OrderedKey, V> FlatMap<K, V> {
    /// The underlying sorted entries.
    pub closed spec fn entries_view(&self) -> Seq<(K, V)> {
        self.entries@
    }

    /// The entries are always sorted strictly by key; callers obtain this
    /// fact for any map value with `use_type_invariant`.
    #[verifier::type_invariant]
    pub open spec fn type_inv(self) -> bool {
        entries_sorted(self.entries_view())
    }

    /// The view is the entries read as a map.
    pub proof fn lemma_view(&self)
        ensures
            self@ == map_of_entries(self.entries_view()),
    {
    }

    /// An empty map.
    pub fn new() -> (r: Self)
        ensures
            r@ == Map::<K, V>::empty(),
            r.entries_view() == Seq::<(K, V)>::empty(),
    {
        let entries: Vec<(K, V)> = Vec::new();
        proof {
            assert(entries@ =~= Seq::<(K, V)>::empty());
            assert(map_of_entries(entries@) =~= Map::<K, V>::empty());
        }
        FlatMap { entries }
    }

    /// How many keys are held.
    pub fn len(&self) -> (r: usize)
        ensures
            r == self.entries_view().len(),
    {
        self.entries.len()
    }

    /// Whether no key is held.
    pub fn is_empty(&self) -> (r: bool)
        ensures
            r == (self.entries_view().len() == 0),
            r ==> self@ == Map::<K, V>::empty(),
    {
        let empty = self.entries.is_empty();
        proof {
            if empty {
                assert(map_of_entries(self.entries@) =~= Map::<K, V>::empty());
            }
        }
        empty
    }

    /// How many entries fit before the vector reallocates.
    pub fn capacity(&self) -> (r: usize)
        ensures
            r >= self.entries_view().len(),
    {
        vec_capacity(&self.entries)
    }

    /// The sorted entries as a slice.
    pub fn as_slice(&self) -> (r: &[(K, V)])
        ensures
            r@ == self.entries_view(),
    {
        self.entries.as_slice()
    }

    /// Binary search: the position of the key, or the position where it
    /// would be inserted to keep the entries sorted.
    pub fn find(&self, key: &K) -> (r: Result<usize, usize>)
        ensures
            r matches Ok(i) ==> i < self.entries_view().len() && self.entries_view()[i as int].0
                == *key,
            r matches Err(i) ==> i <= self.entries_view().len() && !key_present(
                self.entries_view(),
                *key,
            ) && (forall|j: int|
                0 <= j < i ==> key_lt((#[trigger] self.entries_view()[j]).0, *key)) && (forall|
                j: int,
            |
                i <= j < self.entries_view().len() ==> key_lt(
                    *key,
                    (#[trigger] self.entries_view()[j]).0,
                )),
    {
        proof {
            use_type_invariant(self);
        }
        let ghost s = self.entries@;
        let mut lo: usize = 0;
        let mut hi: usize = self.entries.len();
        while lo < hi
            invariant
                lo <= hi <= s.len(),
                s == self.entries@,
                entries_sorted(s),
                forall|j: int| 0 <= j < lo ==> key_lt((#[trigger] s[j]).0, *key),
                forall|j: int| hi <= j < s.len() ==> key_lt(*key, (#[trigger] s[j]).0),
            decreases hi - lo,
        {
            let mid = lo + (hi - lo) / 2;
            let probe = &self.entries[mid].0;
            match probe.compare(key) {
                Comparison::Eq => {
                    return Ok(mid);
                },
                Comparison::Lt => {
                    proof {
                        assert forall|j: int| 0 <= j < mid + 1 implies key_lt(
                            (#[trigger] s[j]).0,
                            *key,
                        ) by {
                            if j < mid {
                                K::lemma_trans(s[j].0, s[mid as int].0, *key);
                                if s[j].0 == *key {
                                    K::lemma_antisym(s[mid as int].0, *key);
                                }
                            }
                        }
                    }
                    lo = mid + 1;
                },
                Comparison::Gt => {
                    proof {
                        assert forall|j: int| mid <= j < s.len() implies key_lt(
                            *key,
                            (#[trigger] s[j]).0,
                        ) by {
                            if j > mid {
                                K::lemma_trans(*key, s[mid as int].0, s[j].0);
                                if s[j].0 == *key {
                                    K::lemma_antisym(*key, s[mid as int].0);
                                }
                            }
                        }
                    }
                    hi = mid;
                },
            }
        }
        proof {
            if key_present(s, *key) {
                let j = choose|j: int| 0 <= j < s.len() && (#[trigger] s[j]).0 == *key;
            }
        }
        Err(lo)
    }

    /// A shared borrow of the value at the key, if one is held.
    pub fn get(&self, key: &K) -> (r: Option<&V>)
        ensures
            self@.dom().contains(*key) ==> (r matches Some(v) && *v == self@[*key]),
            !self@.dom().contains(*key) ==> r is None,
    {
        proof {
            use_type_invariant(self);
        }
        match self.find(key) {
            Ok(i) => {
                proof {
                    lemma_map_at_entry(self.entries@, i as int);
                }
                Some(&self.entries[i].1)
            },
            Err(_) => None,
        }
    }

    /// Binds the key to the value; the previous value, if any, is returned.
    /// A present key's entry is replaced in place; a fresh key's entry is
    /// placed where the order puts it, the rest untouched.
    pub fn insert(&mut self, key: K, value: V) -> (r: Option<V>)
        ensures
            final (self)@ == old(self)@.insert(key, value),
            old(self)@.dom().contains(key) ==> (r matches Some(v) && v == old(self)@[key]),
            !old(self)@.dom().contains(key) ==> r is None,
            old(self)@.dom().contains(key) ==> final (self).entries_view().len() == old(
                self,
            ).entries_view().len() && (exists|i: int|
                0 <= i < old(self).entries_view().len() && (#[trigger] old(
                    self,
                ).entries_view()[i]).0 == key && final (self).entries_view() == old(
                    self,
                ).entries_view().update(i, (key, value))),
            !old(self)@.dom().contains(key) ==> final (self).entries_view().len() == old(
                self,
            ).entries_view().len() + 1 && (exists|i: int|
                0 <= i <= old(self).entries_view().len() && final (self).entries_view() == old(
                    self,
                ).entries_view().insert(i, (key, value))),
            entries_sorted(final (self).entries_view()),
    {
        proof {
            use_type_invariant(&*self);
        }
        let ghost s = self.entries@;
        match self.find(&key) {
            Ok(i) => {
                proof {
                    lemma_map_at_entry(s, i as int);
                }
                let mut entries: Vec<(K, V)> = Vec::new();
                core::mem::swap(&mut self.entries, &mut entries);
                let previous = entries.remove(i);
                entries.insert(i, (key, value));
                proof {
                    let s1 = entries@;
                    assert(s1 =~= s.update(i as int, (key, value)));
                    assert(entries_sorted(s1)) by {
                        assert forall|a: int, b: int| 0 <= a < b < s1.len() implies key_lt(
                            (#[trigger] s1[a]).0,
                            (#[trigger] s1[b]).0,
                        ) by {
                            assert(s1[a].0 == s[a].0 && s1[b].0 == s[b].0);
                        }
                    }
                    lemma_sorted_keys_unique(s);
                    assert forall|k1: K| true implies #[trigger] key_present(s1, k1)
                        == key_present(s, k1) by {
                        if key_present(s1, k1) {
                            let j = choose|j: int| 0 <= j < s1.len() && (#[trigger] s1[j]).0 == k1;
                            assert(s[j].0 == k1);
                        }
                        if key_present(s, k1) {
                            let j = choose|j: int| 0 <= j < s.len() && (#[trigger] s[j]).0 == k1;
                            assert(s1[j].0 == k1);
                        }
                    }
                    assert(map_of_entries(s1) =~= old(self)@.insert(key, value)) by {
                        assert forall|k1: K| #[trigger]
                            map_of_entries(s1).dom().contains(k1) implies map_of_entries(s1)[k1]
                            == old(self)@.insert(key, value)[k1] by {
                            let j = choose|j: int|
                                0 <= j < s1.len() && (#[trigger] s1[j]).0 == k1;
                            lemma_map_at_entry(s1, j);
                            if k1 != key {
                                lemma_map_at_entry(s, j);
                                assert(s1[j] == s[j]);
                            } else {
                                lemma_sorted_keys_unique(s1);
                                assert(s1[i as int].0 == key);
                                assert(j == i);
                            }
                        }
                    }
                }
                core::mem::swap(&mut self.entries, &mut entries);
                Some(previous.1)
            },
            Err(i) => {
                let mut entries: Vec<(K, V)> = Vec::new();
                core::mem::swap(&mut self.entries, &mut entries);
                entries.insert(i, (key, value));
                proof {
                    let s1 = entries@;
                    assert(s1 == s.insert(i as int, (key, value)));
                    assert(entries_sorted(s1)) by {
                        assert forall|a: int, b: int| 0 <= a < b < s1.len() implies key_lt(
                            (#[trigger] s1[a]).0,
                            (#[trigger] s1[b]).0,
                        ) by {
                            if b < i {
                                assert(s1[a] == s[a] && s1[b] == s[b]);
                            } else if a > i {
                                assert(s1[a] == s[a - 1] && s1[b] == s[b - 1]);
                            } else if a < i && b == i {
                                assert(s1[a] == s[a]);
                            } else if a == i && b > i {
                                assert(s1[b] == s[b - 1]);
                            } else if a < i && b > i {
                                assert(s1[a] == s[a] && s1[b] == s[b - 1]);
                            }
                        }
                    }
                    assert(map_of_entries(s1) =~= old(self)@.insert(key, value)) by {
                        assert forall|k1: K| true implies #[trigger] key_present(s1, k1) == (
                        key_present(s, k1) || k1 == key) by {
                            if key_present(s1, k1) {
                                let j = choose|j: int|
                                    0 <= j < s1.len() && (#[trigger] s1[j]).0 == k1;
                                if j < i {
                                    assert(s[j].0 == k1);
                                } else if j > i {
                                    assert(s[j - 1].0 == k1);
                                }
                            }
                            if key_present(s, k1) {
                                let j = choose|j: int|
                                    0 <= j < s.len() && (#[trigger] s[j]).0 == k1;
                                if j < i {
                                    assert(s1[j].0 == k1);
                                } else {
                                    assert(s1[j + 1].0 == k1);
                                }
                            }
                            assert(s1[i as int].0 == key);
                        }
                        assert forall|k1: K| #[trigger]
                            map_of_entries(s1).dom().contains(k1) implies map_of_entries(s1)[k1]
                            == old(self)@.insert(key, value)[k1] by {
                            let j = choose|j: int|
                                0 <= j < s1.len() && (#[trigger] s1[j]).0 == k1;
                            lemma_map_at_entry(s1, j);
                            if k1 == key {
                                lemma_sorted_keys_unique(s1);
                                assert(s1[i as int].0 == key);
                                assert(j == i);
                            } else {
                                if j < i {
                                    lemma_map_at_entry(s, j);
                                    assert(s1[j] == s[j]);
                                } else {
                                    lemma_map_at_entry(s, j - 1);
                                    assert(s1[j] == s[j - 1]);
                                }
                            }
                        }
                    }
                }
                core::mem::swap(&mut self.entries, &mut entries);
                None
            },
        }
    }

    /// Removes the key, returning the value it carried, if any. One entry
    /// leaves; the rest keep their order.
    pub fn remove(&mut self, key: &K) -> (r: Option<V>)
        ensures
            final (self)@ == old(self)@.remove(*key),
            old(self)@.dom().contains(*key) ==> (r matches Some(v) && v == old(self)@[*key]),
            !old(self)@.dom().contains(*key) ==> r is None && final (self)@ == old(self)@,
            old(self)@.dom().contains(*key) ==> final (self).entries_view().len() + 1 == old(
                self,
            ).entries_view().len() && (exists|i: int|
                0 <= i < old(self).entries_view().len() && (#[trigger] old(
                    self,
                ).entries_view()[i]).0 == *key && final (self).entries_view() == old(
                    self,
                ).entries_view().remove(i)),
            !old(self)@.dom().contains(*key) ==> final (self).entries_view() == old(
                self,
            ).entries_view(),
            entries_sorted(final (self).entries_view()),
    {
        match self.remove_entry(key) {
            Some((_, v)) => Some(v),
            None => None,
        }
    }

    /// Removes the key, returning the whole entry it carried, if any. One
    /// entry leaves; the rest keep their order.
    pub fn remove_entry(&mut self, key: &K) -> (r: Option<(K, V)>)
        ensures
            final (self)@ == old(self)@.remove(*key),
            old(self)@.dom().contains(*key) ==> (r matches Some(kv) && kv.0 == *key && kv.1 == old(
                self,
            )@[*key]),
            !old(self)@.dom().contains(*key) ==> r is None && final (self)@ == old(self)@,
            old(self)@.dom().contains(*key) ==> final (self).entries_view().len() + 1 == old(
                self,
            ).entries_view().len() && (exists|i: int|
                0 <= i < old(self).entries_view().len() && (#[trigger] old(
                    self,
                ).entries_view()[i]).0 == *key && final (self).entries_view() == old(
                    self,
                ).entries_view().remove(i)),
            !old(self)@.dom().contains(*key) ==> final (self).entries_view() == old(
                self,
            ).entries_view(),
            entries_sorted(final (self).entries_view()),
    {
        proof {
            use_type_invariant(&*self);
        }
        let ghost s = self.entries@;
        match self.find(key) {
            Ok(i) => {
                proof {
                    lemma_map_at_entry(s, i as int);
                }
                let mut entries: Vec<(K, V)> = Vec::new();
                core::mem::swap(&mut self.entries, &mut entries);
                let entry = entries.remove(i);
                proof {
                    let s1 = entries@;
                    assert(s1 == s.remove(i as int));
                    assert(entries_sorted(s1)) by {
                        assert forall|a: int, b: int| 0 <= a < b < s1.len() implies key_lt(
                            (#[trigger] s1[a]).0,
                            (#[trigger] s1[b]).0,
                        ) by {
                            if b < i {
                                assert(s1[a] == s[a] && s1[b] == s[b]);
                            } else if a >= i {
                                assert(s1[a] == s[a + 1] && s1[b] == s[b + 1]);
                            } else {
                                assert(s1[a] == s[a] && s1[b] == s[b + 1]);
                            }
                        }
                    }
                    lemma_sorted_keys_unique(s);
                    assert(map_of_entries(s1) =~= old(self)@.remove(*key)) by {
                        assert forall|k1: K| true implies #[trigger] key_present(s1, k1) == (
                        key_present(s, k1) && k1 != *key) by {
                            if key_present(s1, k1) {
                                let j = choose|j: int|
                                    0 <= j < s1.len() && (#[trigger] s1[j]).0 == k1;
                                if j < i {
                                    assert(s[j].0 == k1);
                                } else {
                                    assert(s[j + 1].0 == k1);
                                }
                            }
                            if key_present(s, k1) && k1 != *key {
                                let j = choose|j: int|
                                    0 <= j < s.len() && (#[trigger] s[j]).0 == k1;
                                if j < i {
                                    assert(s1[j].0 == k1);
                                } else {
                                    assert(j != i);
                                    assert(s1[j - 1].0 == k1);
                                }
                            }
                        }
                        assert forall|k1: K| #[trigger]
                            map_of_entries(s1).dom().contains(k1) implies map_of_entries(s1)[k1]
                            == old(self)@[k1] by {
                            let j = choose|j: int|
                                0 <= j < s1.len() && (#[trigger] s1[j]).0 == k1;
                            lemma_map_at_entry(s1, j);
                            if j < i {
                                lemma_map_at_entry(s, j);
                                assert(s1[j] == s[j]);
                            } else {
                                lemma_map_at_entry(s, j + 1);
                                assert(s1[j] == s[j + 1]);
                            }
                        }
                    }
                }
                core::mem::swap(&mut self.entries, &mut entries);
                Some(entry)
            },
            Err(_) => {
                proof {
                    assert(self@ =~= old(self)@.remove(*key));
                }
                None
            },
        }
    }

    /// The map holding the pairs of `pairs`, inserted in order: a later pair
    /// with the same key replaces an earlier one.
    pub fn from_vec(pairs: Vec<(K, V)>) -> (r: Self)
        ensures
            r@ == inserted_all(Map::<K, V>::empty(), pairs@),
            entries_sorted(r.entries_view()),
    {
        let mut r = FlatMap::new();
        r.extend_from_vec(pairs);
        r
    }

    /// Inserts each pair of `pairs` in order; a later pair with the same key
    /// replaces an earlier one, and earlier bindings of other keys stay.
    pub fn extend_from_vec(&mut self, pairs: Vec<(K, V)>)
        ensures
            final (self)@ == inserted_all(old(self)@, pairs@),
            entries_sorted(final (self).entries_view()),
    {
        let ghost all = pairs@;
        let mut pairs = pairs;
        let ghost m0 = self@;
        let mut taken: usize = 0;
        let total = pairs.len();
        while taken < total
            invariant
                total == all.len(),
                taken <= total,
                pairs@ == all.skip(taken as int),
                self@ == inserted_all(m0, all.take(taken as int)),
            decreases total - taken,
        {
            let (k, v) = pairs.remove(0);
            self.insert(k, v);
            taken += 1;
            proof {
                assert(pairs@ =~= all.skip(taken as int));
                assert(all.take(taken as int).drop_last() =~= all.take(taken as int - 1));
                assert(all.take(taken as int).last() == all[taken as int - 1]);
                assert(self@ == inserted_all(m0, all.take(taken as int)));
            }
        }
        proof {
            assert(all.take(total as int) =~= all);
            use_type_invariant(&*self);
        }
    }

    /// The sorted entries, by value.
    pub fn into_vec(self) -> (r: Vec<(K, V)>)
        ensures
            r@ == self.entries_view(),
    {
        self.entries
    }
}

/// `m` after inserting each pair of `s` in order.
pub open spec fn inserted_all<K, V>(m: Map<K, V>, s: Seq<(K, V)>) -> Map<K, V>
    decreases s.len(),
{
    if s.len() == 0 {
        m
    } else {
        inserted_all(m, s.drop_last()).insert(s.last().0, s.last().1)
    }
}

impl<K: OrderedKey, V> Default for FlatMap<K, V> {
    /// An empty map.
    fn default() -> (r: Self)
        ensures
            r@ == Map::<K, V>::empty(),
    {
        FlatMap::new()
    }
}

} // verus!
