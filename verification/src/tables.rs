//! Maps and sets of values, kept as vectors in which no key occurs twice.
use vstd::prelude::*;

use crate::values::Value;

verus! {

/// The map that a sequence of pairs stands for.
pub open spec fn pairs_map<A, B>(pairs: Seq<(A, B)>) -> Map<A, B> {
    Map::new(
        |key: A| exists|i: int| 0 <= i < pairs.len() && (#[trigger] pairs[i]).0 == key,
        |key: A| pairs[choose|i: int| 0 <= i < pairs.len() && (#[trigger] pairs[i]).0 == key].1,
    )
}

/// No key occurs twice.
pub open spec fn distinct_keys<A, B>(pairs: Seq<(A, B)>) -> bool {
    forall|i: int, j: int|
        0 <= i < j < pairs.len() ==> (#[trigger] pairs[i]).0 != (#[trigger] pairs[j]).0
}

/// Each pair is found under its key.
pub proof fn lemma_pair_found<A, B>(pairs: Seq<(A, B)>, i: int)
    requires
        distinct_keys(pairs),
        0 <= i < pairs.len(),
    ensures
        pairs_map(pairs).contains_key(pairs[i].0),
        pairs_map(pairs)[pairs[i].0] == pairs[i].1,
{
    let key = pairs[i].0;
    let found = choose|j: int| 0 <= j < pairs.len() && (#[trigger] pairs[j]).0 == key;
    assert(0 <= found < pairs.len() && pairs[found].0 == key);
}

proof fn lemma_pairs_push<A, B>(pairs: Seq<(A, B)>, key: A, value: B)
    requires
        distinct_keys(pairs),
        !pairs_map(pairs).contains_key(key),
    ensures
        distinct_keys(pairs.push((key, value))),
        pairs_map(pairs.push((key, value))) == pairs_map(pairs).insert(key, value),
{
    let after = pairs.push((key, value));
    assert forall|i: int, j: int| 0 <= i < j < after.len() implies (#[trigger] after[i]).0 != (
    #[trigger] after[j]).0 by {
        assert(after[i] == pairs[i]);
    }
    let map = pairs_map(pairs).insert(key, value);
    assert forall|k: A| #[trigger] pairs_map(after).contains_key(k) == map.contains_key(k) by {
        if map.contains_key(k) {
            if k == key {
                assert(after[pairs.len() as int].0 == k);
            } else {
                let i = choose|i: int| 0 <= i < pairs.len() && (#[trigger] pairs[i]).0 == k;
                assert(after[i].0 == k);
            }
        }
        if pairs_map(after).contains_key(k) && k != key {
            let i = choose|i: int| 0 <= i < after.len() && (#[trigger] after[i]).0 == k;
            assert(pairs[i].0 == k);
        }
    }
    assert forall|k: A| pairs_map(after).contains_key(k) implies #[trigger] pairs_map(after)[k]
        == map[k] by {
        let i = choose|i: int| 0 <= i < after.len() && (#[trigger] after[i]).0 == k;
        lemma_pair_found(after, i);
        if k != key {
            lemma_pair_found(pairs, i);
        }
    }
    assert(pairs_map(after) =~= map);
}

proof fn lemma_pairs_update<A, B>(pairs: Seq<(A, B)>, at: int, value: B)
    requires
        distinct_keys(pairs),
        0 <= at < pairs.len(),
    ensures
        distinct_keys(pairs.update(at, (pairs[at].0, value))),
        pairs_map(pairs.update(at, (pairs[at].0, value))) == pairs_map(pairs).insert(
            pairs[at].0,
            value,
        ),
{
    let key = pairs[at].0;
    let after = pairs.update(at, (key, value));
    assert forall|i: int| 0 <= i < after.len() implies (#[trigger] after[i]).0 == pairs[i].0 by {}
    let map = pairs_map(pairs).insert(key, value);
    assert forall|k: A| #[trigger] pairs_map(after).contains_key(k) == map.contains_key(k) by {
        if map.contains_key(k) {
            if k == key {
                assert(after[at].0 == k);
            } else {
                let i = choose|i: int| 0 <= i < pairs.len() && (#[trigger] pairs[i]).0 == k;
                assert(after[i].0 == k);
            }
        }
        if pairs_map(after).contains_key(k) {
            let i = choose|i: int| 0 <= i < after.len() && (#[trigger] after[i]).0 == k;
            assert(pairs[i].0 == k);
        }
    }
    assert forall|k: A| pairs_map(after).contains_key(k) implies #[trigger] pairs_map(after)[k]
        == map[k] by {
        let i = choose|i: int| 0 <= i < after.len() && (#[trigger] after[i]).0 == k;
        lemma_pair_found(after, i);
        lemma_pair_found(pairs, i);
    }
    assert(pairs_map(after) =~= map);
}

proof fn lemma_pairs_remove<A, B>(pairs: Seq<(A, B)>, at: int)
    requires
        distinct_keys(pairs),
        0 <= at < pairs.len(),
    ensures
        distinct_keys(pairs.remove(at)),
        pairs_map(pairs.remove(at)) == pairs_map(pairs).remove(pairs[at].0),
{
    let key = pairs[at].0;
    let after = pairs.remove(at);
    let map = pairs_map(pairs).remove(key);
    assert forall|i: int| 0 <= i < after.len() implies #[trigger] after[i] == (if i < at {
        pairs[i]
    } else {
        pairs[i + 1]
    }) by {}
    assert forall|k: A| #[trigger] pairs_map(after).contains_key(k) == map.contains_key(k) by {
        if map.contains_key(k) {
            let i = choose|i: int| 0 <= i < pairs.len() && (#[trigger] pairs[i]).0 == k;
            if i < at {
                assert(after[i].0 == k);
            } else {
                assert(after[i - 1].0 == k);
            }
        }
        if pairs_map(after).contains_key(k) {
            let i = choose|i: int| 0 <= i < after.len() && (#[trigger] after[i]).0 == k;
            let from = if i < at {
                i
            } else {
                i + 1
            };
            assert(pairs[from].0 == k);
        }
    }
    assert forall|k: A| pairs_map(after).contains_key(k) implies #[trigger] pairs_map(after)[k]
        == map[k] by {
        let i = choose|i: int| 0 <= i < after.len() && (#[trigger] after[i]).0 == k;
        let from = if i < at {
            i
        } else {
            i + 1
        };
        lemma_pair_found(after, i);
        lemma_pair_found(pairs, from);
    }
    assert(pairs_map(after) =~= map);
}

/// A map from `K` to `V`.
pub struct Table<K: Value, V: DeepView> {
    entries: Vec<(K, V)>,
}

impl<K: Value, V: DeepView> DeepView for Table<K, V> {
    type V = Map<K::V, V::V>;

    open spec fn deep_view(&self) -> Map<K::V, V::V> {
        pairs_map(self.pairs())
    }
}

impl<K: Value, V: DeepView> Table<K, V> {
    /// The pairs, in the order in which the table is walked.
    pub closed spec fn pairs(&self) -> Seq<(K::V, V::V)> {
        self.entries.deep_view()
    }

    /// The keys themselves.
    pub closed spec fn keys(&self) -> Set<K> {
        key_set(self.entries@)
    }

    /// The values themselves.
    pub closed spec fn values(&self) -> Set<V> {
        value_set(self.entries@)
    }

    #[verifier::type_invariant]
    spec fn well_formed(&self) -> bool {
        distinct_keys(self.entries.deep_view())
    }

    /// An empty table.
    pub fn new() -> (table: Self)
        ensures
            table.deep_view() == Map::<K::V, V::V>::empty(),
            table.pairs() == Seq::<(K::V, V::V)>::empty(),
            table.keys() == Set::<K>::empty(),
            table.values() == Set::<V>::empty(),
    {
        let entries: Vec<(K, V)> = Vec::new();
        assert(entries.deep_view() =~= Seq::<(K::V, V::V)>::empty());
        assert(pairs_map(entries.deep_view()) =~= Map::<K::V, V::V>::empty());
        Table { entries }
    }

    /// The number of keys.
    pub fn len(&self) -> (count: usize)
        ensures
            count == self.pairs().len(),
            distinct_keys(self.pairs()),
    {
        proof {
            use_type_invariant(self);
        }
        self.entries.len()
    }

    /// Whether the table holds no key.
    pub fn is_empty(&self) -> (empty: bool)
        ensures
            empty == (self.deep_view() == Map::<K::V, V::V>::empty()),
            empty == (self.pairs().len() == 0),
    {
        proof {
            if self.entries@.len() == 0 {
                assert(self.deep_view() =~= Map::<K::V, V::V>::empty());
            } else {
                let pairs = self.pairs();
                assert(pairs[0].0 == pairs[0].0);
                assert(self.deep_view().contains_key(pairs[0].0));
            }
        }
        self.entries.len() == 0
    }

    /// The key at a place of the walk.
    pub fn key_at(&self, at: usize) -> (key: &K)
        requires
            at < self.pairs().len(),
        ensures
            key.deep_view() == self.pairs()[at as int].0,
            self.deep_view().contains_key(key.deep_view()),
            self.keys().contains(*key),
    {
        proof {
            use_type_invariant(self);
            lemma_pair_found(self.pairs(), at as int);
        }
        &self.entries[at].0
    }

    /// The value at a place of the walk.
    pub fn value_at(&self, at: usize) -> (value: &V)
        requires
            at < self.pairs().len(),
        ensures
            value.deep_view() == self.pairs()[at as int].1,
            self.deep_view().contains_pair(self.pairs()[at as int].0, value.deep_view()),
            self.values().contains(*value),
    {
        proof {
            use_type_invariant(self);
            lemma_pair_found(self.pairs(), at as int);
        }
        &self.entries[at].1
    }

    fn find(&self, key: &K) -> (found: Option<usize>)
        ensures
            match found {
                Some(at) => at < self.entries@.len() && self.entries@[at as int].0.deep_view()
                    == key.deep_view(),
                None => !self.deep_view().contains_key(key.deep_view()),
            },
    {
        for i in 0..self.entries.len()
            invariant
                forall|j: int|
                    0 <= j < i ==> (#[trigger] self.entries@[j]).0.deep_view() != key.deep_view(),
        {
            if self.entries[i].0.same(key) {
                return Some(i);
            }
        }
        assert forall|j: int| 0 <= j < self.pairs().len() implies (#[trigger] self.pairs()[j]).0
            != key.deep_view() by {
            assert(self.entries@[j].0.deep_view() != key.deep_view());
        }
        None
    }

    /// Whether the key has a value.
    pub fn contains_key(&self, key: &K) -> (found: bool)
        ensures
            found == self.deep_view().contains_key(key.deep_view()),
    {
        match self.find(key) {
            Some(at) => {
                assert(self.pairs()[at as int].0 == key.deep_view());
                true
            },
            None => false,
        }
    }

    /// The value of a key.
    pub fn get(&self, key: &K) -> (value: Option<&V>)
        ensures
            match value {
                Some(found) => {
                    &&& self.deep_view().contains_pair(key.deep_view(), found.deep_view())
                    &&& self.values().contains(*found)
                },
                None => !self.deep_view().contains_key(key.deep_view()),
            },
    {
        match self.find(key) {
            Some(at) => {
                proof {
                    use_type_invariant(self);
                    lemma_pair_found(self.pairs(), at as int);
                    assert(self.pairs()[at as int].0 == key.deep_view());
                }
                Some(&self.entries[at].1)
            },
            None => None,
        }
    }

    /// Gives the key the value, in place of an earlier one. A key that has a value already stays the
    /// key that it was.
    pub fn insert(&mut self, key: K, value: V)
        ensures
            final(self).deep_view() == old(self).deep_view().insert(
                key.deep_view(),
                value.deep_view(),
            ),
            final(self).keys() == (if old(self).deep_view().contains_key(key.deep_view()) {
                old(self).keys()
            } else {
                old(self).keys().insert(key)
            }),
            final(self).values() <= old(self).values().insert(value),
    {
        let found = self.find(&key);
        proof {
            use_type_invariant(&*self);
        }
        let ghost before = self.entries.deep_view();
        let ghost held = self.entries@;
        let mut entries: Vec<(K, V)> = Vec::new();
        std::mem::swap(&mut entries, &mut self.entries);
        match found {
            Some(at) => {
                let ghost pair = (key.deep_view(), value.deep_view());
                assert(before[at as int].0 == pair.0);
                proof {
                    lemma_pair_found(before, at as int);
                }
                let (kept, _) = entries.remove(at);
                entries.insert(at, (kept, value));
                proof {
                    lemma_pairs_update(before, at as int, pair.1);
                    assert(entries@ =~= held.update(at as int, (held[at as int].0, value)));
                    assert(entries.deep_view() =~= before.update(at as int, pair));
                }
            },
            None => {
                let ghost pair = (key.deep_view(), value.deep_view());
                entries.push((key, value));
                proof {
                    lemma_pairs_push(before, pair.0, pair.1);
                    assert(entries.deep_view() =~= before.push(pair));
                    assert(entries@[held.len() as int].0 == key);
                }
            },
        }
        proof {
            assert forall|i: int| 0 <= i < held.len() implies (#[trigger] entries@[i]).0
                == held[i].0 by {}
        }
        self.entries = entries;
        proof {
            assert forall|k: K| #[trigger] self.keys().contains(k) == (if found is Some {
                old(self).keys()
            } else {
                old(self).keys().insert(key)
            }).contains(k) by {
                if old(self).keys().contains(k) {
                    let i = choose|i: int| 0 <= i < held.len() && (#[trigger] held[i]).0 == k;
                    assert(self.entries@[i].0 == k);
                }
            }
        }
    }

    /// Takes the key and its value out.
    pub fn remove_entry(&mut self, key: &K) -> (removed: Option<(K, V)>)
        ensures
            final(self).deep_view() == old(self).deep_view().remove(key.deep_view()),
            match removed {
                Some((kept, value)) => {
                    &&& kept.deep_view() == key.deep_view()
                    &&& old(self).deep_view().contains_pair(key.deep_view(), value.deep_view())
                    &&& old(self).keys().contains(kept)
                    &&& old(self).values().contains(value)
                },
                None => !old(self).deep_view().contains_key(key.deep_view()),
            },
            final(self).keys() <= old(self).keys(),
            final(self).values() <= old(self).values(),
    {
        let found = self.find(key);
        proof {
            use_type_invariant(&*self);
        }
        match found {
            Some(at) => {
                let ghost before = self.entries.deep_view();
                let ghost held = self.entries@;
                let mut entries: Vec<(K, V)> = Vec::new();
                std::mem::swap(&mut entries, &mut self.entries);
                let entry = entries.remove(at);
                proof {
                    assert(held[at as int] == entry);
                    lemma_rest_stays(held, at as int);
                    assert(before[at as int].0 == key.deep_view());
                    lemma_pairs_remove(before, at as int);
                    lemma_pair_found(before, at as int);
                    assert(entries.deep_view() =~= before.remove(at as int));
                }
                self.entries = entries;
                Some(entry)
            },
            None => {
                assert(self.deep_view().remove(key.deep_view()) =~= self.deep_view());
                None
            },
        }
    }

    /// Takes the value of the key out, and the key with it.
    pub fn remove(&mut self, key: &K) -> (removed: Option<V>)
        ensures
            final(self).deep_view() == old(self).deep_view().remove(key.deep_view()),
            match removed {
                Some(value) => old(self).deep_view().contains_pair(
                    key.deep_view(),
                    value.deep_view(),
                ),
                None => !old(self).deep_view().contains_key(key.deep_view()),
            },
            final(self).keys() <= old(self).keys(),
            final(self).values() <= old(self).values(),
            removed matches Some(value) ==> old(self).values().contains(value),
    {
        match self.remove_entry(key) {
            Some((_, value)) => Some(value),
            None => None,
        }
    }

    /// Takes every key out.
    pub fn clear(&mut self)
        ensures
            final(self).deep_view() == Map::<K::V, V::V>::empty(),
            final(self).keys() == Set::<K>::empty(),
            final(self).values() == Set::<V>::empty(),
    {
        *self = Table::new();
    }
}

impl<K: Value, V: DeepView> Table<K, V> {
    /// Keeps the keys of a set, and says whether any other key was there.
    pub fn retain_keys(&mut self, keep: &KeySet<K>) -> (removed: bool)
        ensures
            final(self).deep_view() == old(self).deep_view().restrict(keep.deep_view()),
            removed == !(old(self).deep_view().dom() <= keep.deep_view()),
            final(self).keys() <= old(self).keys(),
            final(self).values() <= old(self).values(),
    {
        proof {
            use_type_invariant(&*self);
        }
        let ghost before = self.deep_view();
        let ghost held = self.entries@;
        let mut entries: Vec<(K, V)> = Vec::new();
        std::mem::swap(&mut entries, &mut self.entries);
        assert forall|j: int| 0 <= j < entries@.len() implies held.contains(
            #[trigger] entries@[j],
        ) by {
            assert(held[j] == entries@[j]);
        }
        let mut removed: bool = false;
        let mut i: usize = entries.len();
        while i > 0
            invariant
                i <= entries@.len(),
                distinct_keys(entries.deep_view()),
                pairs_map(entries.deep_view()).dom() <= before.dom(),
                forall|k: K::V|
                    pairs_map(entries.deep_view()).contains_key(k)
                        ==> #[trigger] pairs_map(entries.deep_view())[k] == before[k],
                forall|k: K::V|
                    before.contains_key(k) && keep.deep_view().contains(k)
                        ==> #[trigger] pairs_map(entries.deep_view()).contains_key(k),
                forall|j: int|
                    i <= j < entries@.len() ==> keep.deep_view().contains(
                        (#[trigger] entries@[j]).0.deep_view(),
                    ),
                removed ==> !(before.dom() <= keep.deep_view()),
                !removed ==> pairs_map(entries.deep_view()) == before,
                forall|j: int|
                    0 <= j < entries@.len() ==> held.contains(#[trigger] entries@[j]),
            decreases i,
        {
            i = i - 1;
            if !keep.contains(&entries[i].0) {
                let ghost pairs = entries.deep_view();
                let ghost now = entries@;
                proof {
                    lemma_pairs_remove(pairs, i as int);
                    lemma_pair_found(pairs, i as int);
                    assert(before.dom().contains(pairs[i as int].0));
                }
                let _ = entries.remove(i);
                removed = true;
                proof {
                    assert(entries.deep_view() =~= pairs.remove(i as int));
                    assert forall|j: int| 0 <= j < entries@.len() implies held.contains(
                        #[trigger] entries@[j],
                    ) by {
                        assert(entries@[j] == (if j < i {
                            now[j]
                        } else {
                            now[j + 1]
                        }));
                    }
                }
            }
        }
        proof {
            let pairs = entries.deep_view();
            let kept = before.restrict(keep.deep_view());
            assert forall|k: K::V| #[trigger] pairs_map(pairs).contains_key(k) implies kept.contains_key(k) by {
                let j = choose|j: int| 0 <= j < pairs.len() && (#[trigger] pairs[j]).0 == k;
                assert(keep.deep_view().contains(entries@[j].0.deep_view()));
                assert(before.dom().contains(k));
            }
            assert(pairs_map(pairs) =~= kept);
            if !removed {
                assert forall|k: K::V| before.dom().contains(k) implies keep.deep_view().contains(k) by {
                    assert(kept.contains_key(k));
                }
            }
        }
        proof {
            lemma_held_stay(held, entries@);
        }
        self.entries = entries;
        removed
    }
}

/// The keys of some entries.
spec fn key_set<K, V>(entries: Seq<(K, V)>) -> Set<K> {
    Set::new(|key: K| exists|i: int| 0 <= i < entries.len() && (#[trigger] entries[i]).0 == key)
}

/// The values of some entries.
spec fn value_set<K, V>(entries: Seq<(K, V)>) -> Set<V> {
    Set::new(|value: V| exists|i: int| 0 <= i < entries.len() && (#[trigger] entries[i]).1 == value)
}

proof fn lemma_held_stay<K, V>(before: Seq<(K, V)>, after: Seq<(K, V)>)
    requires
        forall|j: int| 0 <= j < after.len() ==> before.contains(#[trigger] after[j]),
    ensures
        key_set(after) <= key_set(before),
        value_set(after) <= value_set(before),
{
    assert forall|key: K| key_set(after).contains(key) implies #[trigger] key_set(before).contains(
        key,
    ) by {
        let j = choose|j: int| 0 <= j < after.len() && (#[trigger] after[j]).0 == key;
        let i = choose|i: int| 0 <= i < before.len() && before[i] == after[j];
        assert(before[i].0 == key);
    }
    assert forall|value: V| value_set(after).contains(value) implies #[trigger] value_set(
        before,
    ).contains(value) by {
        let j = choose|j: int| 0 <= j < after.len() && (#[trigger] after[j]).1 == value;
        let i = choose|i: int| 0 <= i < before.len() && before[i] == after[j];
        assert(before[i].1 == value);
    }
}

proof fn lemma_rest_stays<K, V>(before: Seq<(K, V)>, at: int)
    requires
        0 <= at < before.len(),
    ensures
        key_set(before.remove(at)) <= key_set(before),
        value_set(before.remove(at)) <= value_set(before),
{
    let after = before.remove(at);
    assert forall|j: int| 0 <= j < after.len() implies before.contains(#[trigger] after[j]) by {
        let i = if j < at {
            j
        } else {
            j + 1
        };
        assert(before[i] == after[j]);
    }
    lemma_held_stay(before, after);
}

impl<K: Value, V: Value> Value for Table<K, V> {
    fn dup(&self) -> (copy: Self) {
        proof {
            use_type_invariant(self);
        }
        let entries = self.entries.dup();
        Table { entries }
    }

    fn same(&self, other: &Self) -> (equal: bool) {
        proof {
            use_type_invariant(self);
            use_type_invariant(other);
        }
        let count: usize = self.len();
        for i in 0..count
            invariant
                count == self.pairs().len(),
                distinct_keys(self.pairs()),
                forall|j: int|
                    0 <= j < i ==> other.deep_view().contains_pair(
                        (#[trigger] self.pairs()[j]).0,
                        self.pairs()[j].1,
                    ),
        {
            proof {
                lemma_pair_found(self.pairs(), i as int);
            }
            match other.get(self.key_at(i)) {
                Some(value) => {
                    if !value.same(self.value_at(i)) {
                        return false;
                    }
                },
                None => {
                    return false;
                },
            }
        }
        let others: usize = other.len();
        for i in 0..others
            invariant
                others == other.pairs().len(),
                forall|j: int|
                    0 <= j < i ==> self.deep_view().contains_key((#[trigger] other.pairs()[j]).0),
        {
            if !self.contains_key(other.key_at(i)) {
                return false;
            }
        }
        proof {
            let left = self.deep_view();
            let right = other.deep_view();
            assert forall|k: K::V| #[trigger] left.contains_key(k) implies right.contains_key(k)
                && left[k] == right[k] by {
                let j = choose|j: int| 0 <= j < self.pairs().len() && (#[trigger] self.pairs()[j]).0 == k;
                lemma_pair_found(self.pairs(), j);
            }
            assert forall|k: K::V| #[trigger] right.contains_key(k) implies left.contains_key(k) by {
                let j = choose|j: int| 0 <= j < other.pairs().len() && (#[trigger] other.pairs()[j]).0 == k;
                assert(other.pairs()[j].0 == k);
            }
            assert(left =~= right);
        }
        true
    }
}

/// A set of `K`.
pub struct KeySet<K: Value> {
    items: Vec<K>,
}

impl<K: Value> DeepView for KeySet<K> {
    type V = Set<K::V>;

    open spec fn deep_view(&self) -> Set<K::V> {
        self.listed().to_set()
    }
}

impl<K: Value> KeySet<K> {
    /// The members, in the order in which the set is walked.
    pub closed spec fn listed(&self) -> Seq<K::V> {
        self.items.deep_view()
    }

    /// The members themselves.
    pub closed spec fn members(&self) -> Set<K> {
        self.items@.to_set()
    }

    #[verifier::type_invariant]
    spec fn well_formed(&self) -> bool {
        self.items.deep_view().no_duplicates()
    }

    /// An empty set.
    pub fn new() -> (set: Self)
        ensures
            set.deep_view() == Set::<K::V>::empty(),
            set.members() == Set::<K>::empty(),
    {
        let items: Vec<K> = Vec::new();
        assert(items@.to_set() =~= Set::<K>::empty());
        assert(items.deep_view().to_set() =~= Set::<K::V>::empty());
        KeySet { items }
    }

    /// The number of members.
    pub fn len(&self) -> (count: usize)
        ensures
            count == self.listed().len(),
            count == self.deep_view().len(),
            self.listed().no_duplicates(),
    {
        proof {
            use_type_invariant(self);
            self.listed().unique_seq_to_set();
        }
        self.items.len()
    }

    /// Whether the set has no member.
    pub fn is_empty(&self) -> (empty: bool)
        ensures
            empty == (self.deep_view() == Set::<K::V>::empty()),
    {
        proof {
            if self.items@.len() == 0 {
                assert(self.deep_view() =~= Set::<K::V>::empty());
            } else {
                assert(self.listed().contains(self.listed()[0]));
                assert(self.deep_view().contains(self.listed()[0]));
            }
        }
        self.items.len() == 0
    }

    /// The member at a place of the walk.
    pub fn at(&self, at: usize) -> (item: &K)
        requires
            at < self.listed().len(),
        ensures
            item.deep_view() == self.listed()[at as int],
            self.deep_view().contains(item.deep_view()),
            self.members().contains(*item),
    {
        proof {
            assert(self.items@.contains(self.items@[at as int]));
            assert(self.listed().contains(self.listed()[at as int]));
        }
        &self.items[at]
    }

    fn find(&self, item: &K) -> (found: Option<usize>)
        ensures
            match found {
                Some(at) => at < self.items@.len() && self.items@[at as int].deep_view()
                    == item.deep_view(),
                None => !self.deep_view().contains(item.deep_view()),
            },
    {
        for i in 0..self.items.len()
            invariant
                forall|j: int| 0 <= j < i ==> (#[trigger] self.items@[j]).deep_view() != item.deep_view(),
        {
            if self.items[i].same(item) {
                return Some(i);
            }
        }
        proof {
            if self.listed().contains(item.deep_view()) {
                let j = choose|j: int|
                    0 <= j < self.listed().len() && self.listed()[j] == item.deep_view();
                assert(self.items@[j].deep_view() == item.deep_view());
            }
        }
        None
    }

    /// Whether the item is a member.
    pub fn contains(&self, item: &K) -> (found: bool)
        ensures
            found == self.deep_view().contains(item.deep_view()),
    {
        match self.find(item) {
            Some(at) => {
                proof {
                    assert(self.listed()[at as int] == item.deep_view());
                    assert(self.listed().contains(item.deep_view()));
                }
                true
            },
            None => false,
        }
    }

    /// The member that means the same as the item.
    pub fn get(&self, item: &K) -> (member: Option<&K>)
        ensures
            match member {
                Some(member) => {
                    &&& self.members().contains(*member)
                    &&& member.deep_view() == item.deep_view()
                    &&& self.deep_view().contains(item.deep_view())
                },
                None => !self.deep_view().contains(item.deep_view()),
            },
    {
        match self.find(item) {
            Some(at) => {
                proof {
                    assert(self.listed()[at as int] == item.deep_view());
                    assert(self.listed().contains(item.deep_view()));
                    assert(self.items@.contains(self.items@[at as int]));
                }
                Some(&self.items[at])
            },
            None => None,
        }
    }

    /// Makes the item a member, if it is not one already.
    pub fn insert(&mut self, item: K)
        ensures
            final(self).deep_view() == old(self).deep_view().insert(item.deep_view()),
            final(self).members() == (if old(self).deep_view().contains(item.deep_view()) {
                old(self).members()
            } else {
                old(self).members().insert(item)
            }),
    {
        if self.contains(&item) {
            assert(self.deep_view().insert(item.deep_view()) =~= self.deep_view());
            return ;
        }
        proof {
            use_type_invariant(&*self);
        }
        let ghost before = self.items.deep_view();
        let ghost held = self.items@;
        let ghost new = item.deep_view();
        let mut items: Vec<K> = Vec::new();
        std::mem::swap(&mut items, &mut self.items);
        items.push(item);
        proof {
            assert(items.deep_view() =~= before.push(new));
            assert forall|i: int| 0 <= i < before.len() implies #[trigger] before[i] != new by {
                assert(before.contains(before[i]));
            }
            assert(before.push(new).to_set() =~= before.to_set().insert(new)) by {
                broadcast use vstd::seq_lib::group_seq_properties;

            }
            assert(held.push(item).to_set() =~= held.to_set().insert(item)) by {
                broadcast use vstd::seq_lib::group_seq_properties;

            }
        }
        self.items = items;
    }

    /// Takes the item out, and says whether it was a member.
    pub fn remove(&mut self, item: &K) -> (removed: bool)
        ensures
            final(self).deep_view() == old(self).deep_view().remove(item.deep_view()),
            removed == old(self).deep_view().contains(item.deep_view()),
            final(self).members() <= old(self).members(),
    {
        let found = self.find(item);
        proof {
            use_type_invariant(&*self);
        }
        match found {
            Some(at) => {
                let ghost before = self.items.deep_view();
                let ghost held = self.items@;
                let mut items: Vec<K> = Vec::new();
                std::mem::swap(&mut items, &mut self.items);
                let _ = items.remove(at);
                proof {
                    assert forall|k: K| items@.contains(k) implies #[trigger] held.contains(k) by {
                        let i = choose|i: int| 0 <= i < items@.len() && items@[i] == k;
                        let from = if i < at {
                            i
                        } else {
                            i + 1
                        };
                        assert(held[from] == k);
                    }
                    let after = before.remove(at as int);
                    assert(items.deep_view() =~= after);
                    assert(before[at as int] == item.deep_view());
                    assert(before.contains(item.deep_view()));
                    assert forall|k: K::V| #[trigger] after.to_set().contains(k)
                        == before.to_set().remove(item.deep_view()).contains(k) by {
                        if after.contains(k) {
                            let i = choose|i: int| 0 <= i < after.len() && after[i] == k;
                            let from = if i < at {
                                i
                            } else {
                                i + 1
                            };
                            assert(before[from] == k);
                            assert(before.contains(k));
                        }
                        if before.contains(k) && k != item.deep_view() {
                            let i = choose|i: int| 0 <= i < before.len() && before[i] == k;
                            let to = if i < at {
                                i
                            } else {
                                i - 1
                            };
                            assert(after[to] == k);
                        }
                    }
                    assert(after.to_set() =~= before.to_set().remove(item.deep_view()));
                    assert(after.no_duplicates()) by {
                        assert forall|i: int, j: int|
                            0 <= i < after.len() && 0 <= j < after.len() && i != j implies after[i]
                            != after[j] by {
                            let a = if i < at {
                                i
                            } else {
                                i + 1
                            };
                            let b = if j < at {
                                j
                            } else {
                                j + 1
                            };
                            assert(before[a] != before[b]);
                        }
                    }
                }
                self.items = items;
                true
            },
            None => {
                assert(self.deep_view().remove(item.deep_view()) =~= self.deep_view());
                false
            },
        }
    }
}

impl<K: Value> Value for KeySet<K> {
    fn dup(&self) -> (copy: Self) {
        proof {
            use_type_invariant(self);
        }
        let items = self.items.dup();
        KeySet { items }
    }

    fn same(&self, other: &Self) -> (equal: bool) {
        for i in 0..self.items.len()
            invariant
                forall|j: int|
                    0 <= j < i ==> other.deep_view().contains(
                        (#[trigger] self.items@[j]).deep_view(),
                    ),
        {
            if !other.contains(&self.items[i]) {
                proof {
                    assert(self.listed().contains(self.listed()[i as int]));
                    assert(self.deep_view().contains(self.items@[i as int].deep_view()));
                }
                return false;
            }
        }
        for i in 0..other.items.len()
            invariant
                forall|j: int|
                    0 <= j < i ==> self.deep_view().contains(
                        (#[trigger] other.items@[j]).deep_view(),
                    ),
        {
            if !self.contains(&other.items[i]) {
                proof {
                    assert(other.listed().contains(other.listed()[i as int]));
                    assert(other.deep_view().contains(other.items@[i as int].deep_view()));
                }
                return false;
            }
        }
        proof {
            assert forall|k: K::V| #[trigger] self.deep_view().contains(k)
                == other.deep_view().contains(k) by {
                if self.listed().contains(k) {
                    let j = choose|j: int| 0 <= j < self.listed().len() && self.listed()[j] == k;
                    assert(self.items@[j].deep_view() == k);
                }
                if other.listed().contains(k) {
                    let j = choose|j: int| 0 <= j < other.listed().len() && other.listed()[j] == k;
                    assert(other.items@[j].deep_view() == k);
                }
            }
            assert(self.deep_view() =~= other.deep_view());
        }
        true
    }
}

} // verus!
