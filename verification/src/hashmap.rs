//! An open-addressing hash map: entries live directly in one array of slots,
//! collisions are resolved by probing towards lower indices (wrapping), and
//! removal closes the hole by shifting later entries back.

use vstd::prelude::*;
use vstd::std_specs::cmp::PartialEqSpec;

mod probing;

verus! {

/// The hash under which a key is stored: `0` marks an empty slot, so a hash of
/// `0` is stored as `1`.
pub open spec fn normalized_hash(h: usize) -> usize {
    if h == 0 {
        1
    } else {
        h
    }
}

/// The slot at which probing for `hash` starts in a table of `capacity` slots.
pub open spec fn home_of(hash: usize, capacity: usize) -> usize {
    hash & ((capacity - 1) as usize)
}

/// The slot probed after slot `index`: the one below it, wrapping from the
/// first slot to the last.
pub open spec fn next_index(index: int, capacity: int) -> int {
    if index == 0 {
        capacity - 1
    } else {
        index - 1
    }
}

/// The number of probe steps that lead from slot `from` to slot `to`.
pub open spec fn probe_distance(from: int, to: int, capacity: int) -> int {
    if from >= to {
        from - to
    } else {
        from - to + capacity
    }
}

/// Whether `n` is a power of two.
pub open spec fn is_power_of_two(n: int) -> bool
    decreases n,
{
    if n <= 1 {
        n == 1
    } else {
        n % 2 == 0 && is_power_of_two(n / 2)
    }
}

/// What the map needs of its keys: `==` decides what the key type calls
/// equal, being equal is reflexive, symmetric and transitive, and keys that
/// are equal have the same hash.
pub open spec fn obeys_key_model<K: crate::hash::Hash + PartialEq>() -> bool {
    &&& K::obeys_eq_spec()
    &&& forall|a: K| #[trigger] a.eq_spec(&a)
    &&& forall|a: K, b: K| #[trigger] a.eq_spec(&b) ==> b.eq_spec(&a)
    &&& forall|a: K, b: K, c: K|
        #[trigger] a.eq_spec(&b) && #[trigger] b.eq_spec(&c) ==> a.eq_spec(&c)
    &&& forall|a: K, b: K| #[trigger] a.eq_spec(&b) ==> a.spec_hash() == b.spec_hash()
}

/// The key of `map` that `k` equals, if there is one.
pub open spec fn key_like<K: PartialEq, V>(map: Map<K, V>, k: K) -> Option<K> {
    if exists|s: K| map.contains_key(s) && #[trigger] k.eq_spec(&s) {
        Some(choose|s: K| map.contains_key(s) && #[trigger] k.eq_spec(&s))
    } else {
        None
    }
}

/// The key under which an entry for `k` stands in `map`, or is put into it:
/// the key of `map` that `k` equals, or else `k` itself.
pub open spec fn key_for<K: PartialEq, V>(map: Map<K, V>, k: K) -> K {
    match key_like(map, k) {
        Some(s) => s,
        None => k,
    }
}

/// No two keys of `map` are equal.
pub open spec fn keys_apart<K: PartialEq, V>(map: Map<K, V>) -> bool {
    forall|a: K, b: K|
        map.contains_key(a) && map.contains_key(b) && #[trigger] a.eq_spec(&b) ==> a == b
}

/// The map after `v` has been stored for `k`: under the key of `map` that
/// `k` equals, which keeps its place, or else under `k`.
pub open spec fn with_entry<K: PartialEq, V>(map: Map<K, V>, k: K, v: V) -> Map<K, V> {
    map.insert(key_for(map, k), v)
}

/// The map without the entry of the key that `k` equals, if there is one.
pub open spec fn without_entry<K: PartialEq, V>(map: Map<K, V>, k: K) -> Map<K, V> {
    match key_like(map, k) {
        Some(s) => map.remove(s),
        None => map,
    }
}

/// After a value has been stored for `k`, `k` finds the key under which it
/// was stored, and the keys are still apart.
pub proof fn lemma_with_entry<K: crate::hash::Hash + PartialEq, V>(map: Map<K, V>, k: K, v: V)
    requires
        obeys_key_model::<K>(),
        keys_apart(map),
    ensures
        keys_apart(with_entry(map, k, v)),
        key_like(with_entry(map, k, v), k) == Some(key_for(map, k)),
        with_entry(map, k, v)[key_for(map, k)] == v,
        key_for(with_entry(map, k, v), k) == key_for(map, k),
{
    let stored = key_for(map, k);
    let after = with_entry(map, k, v);
    assert(k.eq_spec(&stored));
    assert forall|a: K, b: K|
        after.contains_key(a) && after.contains_key(b) && #[trigger] a.eq_spec(&b) implies a
        == b by {
        if a != b {
            if a == stored && !map.contains_key(a) {
                assert(k.eq_spec(&b));
            } else if b == stored && !map.contains_key(b) {
                assert(b.eq_spec(&a));
                assert(k.eq_spec(&a));
            }
        }
    }
    assert(after.contains_key(stored) && k.eq_spec(&stored));
    let chosen = choose|s: K| after.contains_key(s) && #[trigger] k.eq_spec(&s);
    assert(after.contains_key(chosen) && k.eq_spec(&chosen));
    assert(chosen.eq_spec(&k));
    assert(chosen.eq_spec(&stored));
}

/// After the entry of the key that `k` equals has been removed, `k` finds no
/// key, and the keys are still apart.
pub proof fn lemma_without_entry<K: crate::hash::Hash + PartialEq, V>(map: Map<K, V>, k: K)
    requires
        obeys_key_model::<K>(),
        keys_apart(map),
    ensures
        keys_apart(without_entry(map, k)),
        key_like(without_entry(map, k), k) is None,
{
    let after = without_entry(map, k);
    assert forall|s: K| after.contains_key(s) implies !(#[trigger] k.eq_spec(&s)) by {
        if k.eq_spec(&s) {
            assert(map.contains_key(s));
            let gone = key_like(map, k)->0;
            assert(map.contains_key(gone) && k.eq_spec(&gone));
            assert(s.eq_spec(&k));
            assert(s.eq_spec(&gone));
        }
    }
}

/// Keys that are equal find the same key.
pub proof fn lemma_equal_keys_find_same<K: crate::hash::Hash + PartialEq, V>(
    map: Map<K, V>,
    a: K,
    b: K,
)
    requires
        obeys_key_model::<K>(),
        keys_apart(map),
        a.eq_spec(&b),
    ensures
        key_like(map, a) == key_like(map, b),
{
    assert(b.eq_spec(&a));
    if key_like(map, a) is Some {
        let s = key_like(map, a)->0;
        assert(map.contains_key(s) && a.eq_spec(&s));
        assert(b.eq_spec(&s));
        let t = choose|t: K| map.contains_key(t) && #[trigger] b.eq_spec(&t);
        assert(map.contains_key(t) && b.eq_spec(&t));
        assert(t.eq_spec(&b));
        assert(s.eq_spec(&a));
        assert(t.eq_spec(&a));
        assert(t.eq_spec(&s));
    } else if key_like(map, b) is Some {
        let t = key_like(map, b)->0;
        assert(map.contains_key(t) && b.eq_spec(&t));
        assert(a.eq_spec(&t));
    }
}

/// Where `==` on keys is identity, a key finds itself and no other key.
pub proof fn lemma_concrete_keys<K: crate::hash::Hash + PartialEq, V>(map: Map<K, V>, k: K)
    requires
        vstd::laws_eq::obeys_concrete_eq::<K>(),
    ensures
        obeys_key_model::<K>(),
        key_like(map, k) == (if map.contains_key(k) {
            Some(k)
        } else {
            None
        }),
        key_for(map, k) == k,
        forall|v: V| #[trigger] with_entry(map, k, v) == map.insert(k, v),
        without_entry(map, k) == map.remove(k),
{
    reveal(vstd::laws_eq::obeys_concrete_eq);
    if map.contains_key(k) {
        assert(map.contains_key(k) && k.eq_spec(&k));
    } else {
        assert(map.remove(k) =~= map);
    }
}

/// One slot of the table: a stored hash (`0` when the slot is empty) with the
/// key and value that it belongs to.
pub struct KeyValue<K, V> {
    hash: usize,
    item: Option<(K, V)>,
}

impl<K: crate::hash::Hash + PartialEq, V> KeyValue<K, V> {
    /// The stored hash; `0` marks an empty slot.
    pub closed spec fn stored_hash(&self) -> usize {
        self.hash
    }

    /// The key of an occupied slot.
    pub closed spec fn key(&self) -> K {
        self.item.unwrap().0
    }

    /// The value of an occupied slot.
    pub closed spec fn value(&self) -> V {
        self.item.unwrap().1
    }

    /// An empty slot holds nothing; an occupied one holds its entry together
    /// with the normalized hash of the entry's key.
    pub closed spec fn wf(&self) -> bool {
        if self.hash == 0 {
            self.item is None
        } else {
            self.item is Some && self.hash == normalized_hash(self.item.unwrap().0.spec_hash())
        }
    }

    /// Whether the slot is empty.
    pub fn is_empty(&self) -> (empty: bool)
        ensures
            empty == (self.stored_hash() == 0),
    {
        self.hash == 0
    }

    /// An empty slot.
    fn empty() -> (slot: Self)
        ensures
            slot.stored_hash() == 0,
            slot.wf(),
    {
        KeyValue { hash: 0, item: None }
    }

    /// The slot that holds `value` under `key`, whose normalized hash is
    /// `hash`.
    fn occupied(hash: usize, key: K, value: V) -> (slot: Self)
        requires
            hash == normalized_hash(key.spec_hash()),
        ensures
            slot.stored_hash() == hash,
            slot.key() == key,
            slot.value() == value,
            slot.wf(),
    {
        KeyValue { hash, item: Some((key, value)) }
    }

    /// Whether the slot holds a key that `key`, whose normalized hash is
    /// `hash`, equals.
    fn holds(&self, hash: usize, key: &K) -> (found: bool)
        requires
            self.wf(),
            obeys_key_model::<K>(),
            hash == normalized_hash(key.spec_hash()),
        ensures
            found == (self.stored_hash() != 0 && key.eq_spec(&self.key())),
    {
        match &self.item {
            Some(entry) => hash == self.hash && *key == entry.0,
            None => false,
        }
    }

    /// Replaces the value of an occupied slot.
    fn set_value(&mut self, value: V)
        requires
            old(self).wf(),
            old(self).stored_hash() != 0,
        ensures
            final(self).wf(),
            final(self).stored_hash() == old(self).stored_hash(),
            final(self).key() == old(self).key(),
            final(self).value() == value,
    {
        match &mut self.item {
            Some(entry) => {
                entry.1 = value;
            },
            None => {},
        }
    }

    /// The entry of an occupied slot.
    fn into_entry(self) -> (entry: (K, V))
        requires
            self.wf(),
            self.stored_hash() != 0,
        ensures
            entry.0 == self.key(),
            entry.1 == self.value(),
    {
        self.item.unwrap()
    }

    /// The value of an occupied slot.
    fn value_ref(&self) -> (value: &V)
        requires
            self.wf(),
            self.stored_hash() != 0,
        ensures
            *value == self.value(),
    {
        &self.item.as_ref().unwrap().1
    }
}

/// A hash map from `K` to `V` that stores its entries in the slots themselves.
///
/// Its view is the map from each stored key to its value.
pub struct HashMap<K: crate::hash::Hash + PartialEq, V> {
    table: std::vec::Vec<KeyValue<K, V>>,
    capacity: usize,
    count: usize,
}

impl<K: crate::hash::Hash + PartialEq, V> View for HashMap<K, V> {
    type V = Map<K, V>;

    closed spec fn view(&self) -> Map<K, V> {
        probing::table_view(self.table@)
    }
}

impl<K: crate::hash::Hash + PartialEq, V> HashMap<K, V> {
    /// The number of slots.
    pub closed spec fn capacity(&self) -> usize {
        self.capacity
    }

    /// What holds of the storage whatever the load: the slots are in order and
    /// `count` is the number of entries.
    spec fn storage_wf(&self) -> bool {
        &&& obeys_key_model::<K>()
        &&& keys_apart(self@)
        &&& self.table@.len() == self.capacity
        &&& probing::table_inv(self.table@)
        &&& self.count == probing::occupied_count(self.table@)
        &&& self@.dom().finite()
        &&& self.count == self@.dom().len()
    }

    /// The map's invariant: the key type obeys the key model, no two stored
    /// keys are equal, the slots are in order, the capacity is zero or a
    /// power of two that is at least four, and at most three quarters of the
    /// slots are occupied.
    pub closed spec fn wf(&self) -> bool {
        &&& self.storage_wf()
        &&& self.capacity == 0 || (self.capacity >= 4 && self.capacity % 4 == 0
            && is_power_of_two(self.capacity as int))
        &&& 4 * self.count <= 3 * self.capacity
        &&& 3 * self.capacity <= usize::MAX
    }

    /// An empty map without any slots.
    pub fn new() -> (map: Self)
        requires
            obeys_key_model::<K>(),
        ensures
            map.wf(),
            map@ == Map::<K, V>::empty(),
            map.capacity() == 0,
    {
        let map = Self { table: std::vec::Vec::new(), count: 0, capacity: 0 };
        assert(map@ =~= Map::<K, V>::empty());
        map
    }

    /// The number of entries.
    pub fn count(&self) -> (n: usize)
        requires
            self.wf(),
        ensures
            n == self@.len(),
    {
        self.count
    }

    /// The hash of `k`, with `0` remapped to `1`.
    fn hash(k: &K) -> (h: usize)
        ensures
            h == normalized_hash(k.spec_hash()),
    {
        match k.hash() {
            0 => 1,
            h => h,
        }
    }

    /// The slot that is probed after slot `index`.
    fn next(&self, index: usize) -> (following: usize)
        requires
            index < self.capacity,
        ensures
            following == next_index(index as int, self.capacity as int),
    {
        if index == 0 {
            self.capacity - 1
        } else {
            index - 1
        }
    }

    /// Probes for `k`, whose normalized hash is `hash`: the slot that holds a
    /// key that `k` equals, with `true`, or else the first empty slot on the
    /// probe path of `k`, with `false`.
    fn probe(&self, hash: usize, k: &K) -> (found: (usize, bool))
        requires
            self.storage_wf(),
            self.count < self.capacity,
            hash == normalized_hash(k.spec_hash()),
        ensures
            found.0 < self.capacity,
            found.1 ==> probing::like_key(self.table@, found.0 as int, *k),
            !found.1 ==> self.table@[found.0 as int].stored_hash() == 0 && forall|j: int|
                !probing::like_key(self.table@, j, *k),
            !found.1 ==> forall|p: int|
                0 <= p < self.capacity && probe_distance(
                    home_of(hash, self.capacity) as int,
                    p,
                    self.capacity as int,
                ) < probe_distance(
                    home_of(hash, self.capacity) as int,
                    found.0 as int,
                    self.capacity as int,
                ) ==> (#[trigger] self.table@[p]).stored_hash() != 0,
    {
        let mut index: usize = hash & (self.capacity - 1);
        let mut steps: usize = 0;
        let ghost home = home_of(hash, self.capacity) as int;
        let ghost capacity = self.capacity as int;
        let ghost table = self.table@;
        proof {
            probing::lemma_home_in_range(self.capacity);
        }
        while steps < self.capacity
            invariant
                self.storage_wf(),
                self.count < self.capacity,
                capacity == self.capacity,
                table == self.table@,
                table.len() == capacity,
                hash == normalized_hash(k.spec_hash()),
                home == home_of(hash, self.capacity),
                0 <= home < capacity,
                index < self.capacity,
                steps <= self.capacity,
                steps < self.capacity ==> probe_distance(home, index as int, capacity) == steps,
                forall|p: int|
                    0 <= p < capacity && probe_distance(home, p, capacity) < steps ==> (
                    #[trigger] table[p]).stored_hash() != 0 && !k.eq_spec(&table[p].key()),
            decreases self.capacity - steps,
        {
            let slot = &self.table[index];
            if slot.is_empty() {
                proof {
                    assert forall|i: int| !probing::like_key(table, i, *k) by {
                        if probing::like_key(table, i, *k) {
                            assert(table[i].wf());
                            assert(k.spec_hash() == table[i].key().spec_hash());
                            assert(probing::home_at(table, i) == home);
                            assert(table[index as int].stored_hash() == 0);
                        }
                    }
                }
                return (index, false);
            }
            if slot.holds(hash, k) {
                return (index, true);
            }
            index = self.next(index);
            steps += 1;
        }
        proof {
            let e = probing::lemma_has_empty(table);
            assert(probe_distance(home, e, capacity) < steps);
            assert(table[e].stored_hash() != 0);
        }
        (index, false)
    }

    /// Whether `k` has an entry: whether a stored key equals it.
    pub fn exist(&self, k: K) -> (found: bool)
        requires
            self.wf(),
        ensures
            found == (key_like(self@, k) is Some),
            vstd::laws_eq::obeys_concrete_eq::<K>() ==> found == self@.contains_key(k),
    {
        proof {
            if vstd::laws_eq::obeys_concrete_eq::<K>() {
                lemma_concrete_keys(self@, k);
            }
        }
        if self.capacity == 0 {
            proof {
                probing::lemma_like_absent(self.table@, k);
            }
            return false;
        }
        let hash = Self::hash(&k);
        let (index, found) = self.probe(hash, &k);
        proof {
            if found {
                probing::lemma_like_found(self.table@, index as int, k);
            } else {
                probing::lemma_like_absent(self.table@, k);
            }
        }
        found
    }

    /// The value stored for `k`, if `k` has an entry: the value of the
    /// stored key that equals `k`.
    pub fn get(&self, k: K) -> (value: Option<&V>)
        requires
            self.wf(),
        ensures
            match value {
                Some(v) => key_like(self@, k) is Some && *v == self@[key_for(self@, k)],
                None => key_like(self@, k) is None,
            },
            vstd::laws_eq::obeys_concrete_eq::<K>() ==> match value {
                Some(v) => self@.contains_key(k) && *v == self@[k],
                None => !self@.contains_key(k),
            },
    {
        proof {
            if vstd::laws_eq::obeys_concrete_eq::<K>() {
                lemma_concrete_keys(self@, k);
            }
        }
        if self.capacity == 0 {
            proof {
                probing::lemma_like_absent(self.table@, k);
            }
            return None;
        }
        let hash = Self::hash(&k);
        let (index, found) = self.probe(hash, &k);
        if found {
            proof {
                probing::lemma_like_found(self.table@, index as int, k);
            }
            Some(self.table[index].value_ref())
        } else {
            proof {
                probing::lemma_like_absent(self.table@, k);
            }
            None
        }
    }

    /// Stores `v` under `k` in a table that has an empty slot, without
    /// growing it.
    fn unchecked_set(&mut self, k: K, v: V)
        requires
            old(self).storage_wf(),
            old(self).count < old(self).capacity,
        ensures
            final(self).storage_wf(),
            final(self).capacity == old(self).capacity,
            final(self)@ == with_entry(old(self)@, k, v),
            final(self).count == old(self).count + (if key_like(old(self)@, k) is Some {
                0int
            } else {
                1int
            }),
    {
        let hash = Self::hash(&k);
        let (index, found) = self.probe(hash, &k);
        let ghost before = self.table@;
        let ghost view_before = self@;
        let ghost stored = key_for(view_before, k);
        proof {
            lemma_with_entry(view_before, k, v);
            if found {
                probing::lemma_like_found(before, index as int, k);
            } else {
                probing::lemma_like_absent(before, k);
                assert(k.eq_spec(&k));
                assert(!view_before.contains_key(k));
            }
        }
        if found {
            self.table[index].set_value(v);
        } else {
            self.table[index] = KeyValue::occupied(hash, k, v);
            self.count += 1;
        }
        proof {
            let slot = self.table@[index as int];
            assert(slot.key() == stored);
            assert(self.table@ =~= before.update(index as int, slot));
            probing::lemma_put_keeps_probes(before, index as int, slot);
            probing::lemma_view_put(before, index as int, slot);
            probing::lemma_count_update(before, index as int, slot);
            assert(self@ == view_before.insert(stored, v));
            assert(self@.dom() =~= view_before.dom().insert(stored));
        }
    }

    /// A map of `cap` empty slots.
    fn new_with_cap(cap: usize) -> (map: Self)
        requires
            obeys_key_model::<K>(),
        ensures
            map.storage_wf(),
            map.capacity == cap,
            map.count == 0,
            map@ == Map::<K, V>::empty(),
    {
        let mut table: std::vec::Vec<KeyValue<K, V>> = std::vec::Vec::with_capacity(cap);
        let mut i: usize = 0;
        while i < cap
            invariant
                i <= cap,
                table@.len() == i,
                probing::occupied_count(table@) == 0,
                forall|j: int|
                    0 <= j < i ==> (#[trigger] table@[j]).stored_hash() == 0 && table@[j].wf(),
            decreases cap - i,
        {
            let slot = KeyValue::empty();
            proof {
                probing::lemma_count_push(table@, slot);
            }
            table.push(slot);
            i += 1;
        }
        let map = Self { table, count: 0, capacity: cap };
        assert(map@ =~= Map::<K, V>::empty());
        map
    }

    /// Moves every entry into a new table of `new_cap` slots.
    fn grow(&mut self, new_cap: usize)
        requires
            old(self).storage_wf(),
            old(self).count < new_cap,
        ensures
            final(self).storage_wf(),
            final(self).capacity == new_cap,
            final(self).count == old(self).count,
            final(self)@ == old(self)@,
    {
        let mut new_hm = HashMap::<K, V>::new_with_cap(new_cap);
        let ghost old_view = self@;
        let ghost old_count = self.count;
        let mut i: usize = 0;
        while i < self.table.len()
            invariant
                i <= self.table@.len(),
                probing::slots_wf(self.table@),
                probing::keys_distinct(self.table@),
                forall|j: int| 0 <= j < i ==> (#[trigger] self.table@[j]).stored_hash() == 0,
                new_hm.storage_wf(),
                new_hm.capacity == new_cap,
                new_hm.count + probing::occupied_count(self.table@) == old_count,
                old_count < new_cap,
                keys_apart(old_view),
                old_view =~= new_hm@.union_prefer_right(probing::table_view(self.table@)),
                new_hm@.dom().disjoint(probing::table_view(self.table@).dom()),
            decreases self.table@.len() - i,
        {
            if !self.table[i].is_empty() {
                let ghost before = self.table@;
                let mut slot = KeyValue::empty();
                core::mem::swap(&mut self.table[i], &mut slot);
                proof {
                    assert(self.table@ =~= before.update(i as int, self.table@[i as int]));
                    probing::lemma_view_clear(before, i as int, self.table@[i as int]);
                    probing::lemma_count_update(before, i as int, self.table@[i as int]);
                    probing::lemma_view_holds(before, i as int, slot.key());
                    assert(slot.wf());
                    assert forall|s: K| new_hm@.contains_key(s) implies !(
                    #[trigger] slot.key().eq_spec(&s)) by {
                        if slot.key().eq_spec(&s) {
                            assert(old_view.contains_key(s));
                            assert(old_view.contains_key(slot.key()));
                        }
                    }
                    assert(key_like(new_hm@, slot.key()) is None);
                }
                let (k, v) = slot.into_entry();
                new_hm.unchecked_set(k, v);
            }
            i += 1;
        }
        proof {
            assert forall|key: K| !probing::table_view(self.table@).contains_key(key) by {
                assert forall|j: int| !probing::holds_key(self.table@, j, key) by {}
            }
            assert(old_view =~= new_hm@);
        }
        *self = new_hm;
    }

    /// Stores `v` for `k`: it replaces the value of the stored key that `k`
    /// equals, or else enters `k` with `v`. A table that is three quarters
    /// full, or has no slots, grows first: to four slots from none, else to
    /// twice its size.
    pub fn set(&mut self, k: K, v: V)
        requires
            old(self).wf(),
            8 * old(self)@.len() <= usize::MAX,
        ensures
            final(self).wf(),
            final(self)@ == with_entry(old(self)@, k, v),
            key_like(final(self)@, k) == Some(key_for(old(self)@, k)),
            vstd::laws_eq::obeys_concrete_eq::<K>() ==> final(self)@ == old(self)@.insert(k, v),
            final(self).capacity() == (if 4 * old(self)@.len() >= 3 * old(self).capacity() {
                if old(self).capacity() == 0 {
                    4int
                } else {
                    2 * old(self).capacity()
                }
            } else {
                old(self).capacity() as int
            }),
            4 * final(self)@.len() <= 3 * final(self).capacity(),
            final(self).capacity() >= 4,
            is_power_of_two(final(self).capacity() as int),
    {
        if 4 * self.count >= 3 * self.capacity {
            let new_cap: usize = if self.capacity == 0 {
                4
            } else {
                self.capacity * 2
            };
            proof {
                assert(is_power_of_two(4)) by {
                    reveal_with_fuel(is_power_of_two, 3);
                }
                if self.capacity != 0 {
                    assert(is_power_of_two(2 * (self.capacity as int)));
                }
            }
            self.grow(new_cap);
        }
        proof {
            lemma_with_entry(self@, k, v);
            if vstd::laws_eq::obeys_concrete_eq::<K>() {
                lemma_concrete_keys(self@, k);
            }
        }
        self.unchecked_set(k, v)
    }

    /// Removes the entry of the stored key that `k` equals, if there is one,
    /// and closes the hole: each later entry of the probe sequence whose own
    /// probe path crosses the hole moves back into it, until an empty slot
    /// ends the sequence.
    pub fn remove(&mut self, k: K)
        requires
            old(self).wf(),
        ensures
            final(self).wf(),
            final(self)@ == without_entry(old(self)@, k),
            key_like(final(self)@, k) is None,
            vstd::laws_eq::obeys_concrete_eq::<K>() ==> final(self)@ == old(self)@.remove(k),
            final(self).capacity() == old(self).capacity(),
    {
        proof {
            lemma_without_entry(self@, k);
            if vstd::laws_eq::obeys_concrete_eq::<K>() {
                lemma_concrete_keys(self@, k);
            }
        }
        if self.capacity == 0 {
            proof {
                probing::lemma_like_absent(self.table@, k);
            }
            return ;
        }
        let hash = Self::hash(&k);
        let (found_at, found) = self.probe(hash, &k);
        if !found {
            proof {
                probing::lemma_like_absent(self.table@, k);
            }
            return ;
        }
        let ghost start = self.table@;
        let ghost target = without_entry(self@, k);
        proof {
            probing::lemma_like_found(start, found_at as int, k);
        }
        let ghost n = self.capacity as int;
        let ghost e = probing::lemma_has_empty(start);
        proof {
            probing::lemma_home_in_range(self.capacity);
            probing::lemma_count_update(start, found_at as int, KeyValue { hash: 0, item: None });
        }
        self.count -= 1;
        self.table[found_at] = KeyValue::empty();
        proof {
            let slot = self.table@[found_at as int];
            assert(self.table@ =~= start.update(found_at as int, slot));
            probing::lemma_view_clear(start, found_at as int, slot);
            probing::lemma_count_update(start, found_at as int, slot);
            probing::lemma_clear_opens_gap(start, found_at as int, slot);
            assert(self@ == target);
        }
        let mut gap: usize = found_at;
        let mut index: usize = found_at;
        loop
            invariant
                obeys_key_model::<K>(),
                self.capacity == old(self).capacity,
                self.capacity >= 4 && self.capacity % 4 == 0 && is_power_of_two(
                    self.capacity as int,
                ),
                4 * self.count <= 3 * self.capacity,
                3 * self.capacity <= usize::MAX,
                n == self.capacity,
                self.table@.len() == n,
                probing::slots_wf(self.table@),
                probing::keys_distinct(self.table@),
                probing::probes_unbroken_except(self.table@, gap as int),
                self.count == probing::occupied_count(self.table@),
                self@ == target,
                target == without_entry(old(self)@, k),
                keys_apart(target),
                key_like(target, k) is None,
                vstd::laws_eq::obeys_concrete_eq::<K>() ==> target == old(self)@.remove(k),
                target.dom().finite(),
                self.count == target.dom().len(),
                forall|h: usize| #[trigger] home_of(h, self.capacity) < self.capacity,
                gap < self.capacity,
                index < self.capacity,
                0 <= e < n,
                self.table@[gap as int].stored_hash() == 0,
                self.table@[e].stored_hash() == 0,
                e != gap,
                probe_distance(gap as int, index as int, n) < probe_distance(gap as int, e, n),
                forall|p: int|
                    0 <= p < n && 0 < probe_distance(gap as int, p, n) <= probe_distance(
                        gap as int,
                        index as int,
                        n,
                    ) ==> (#[trigger] self.table@[p]).stored_hash() != 0 && probe_distance(
                        probing::home_at(self.table@, p),
                        p,
                        n,
                    ) < probe_distance(gap as int, p, n),
            decreases probe_distance(index as int, e, n),
        {
            let ghost scanned = index as int;
            index = self.next(index);
            if self.table[index].is_empty() {
                proof {
                    probing::lemma_scan_closes_gap(self.table@, gap as int, scanned, index as int);
                }
                return ;
            }
            let home: usize = self.table[index].hash & (self.capacity - 1);
            assert(home == probing::home_at(self.table@, index as int));
            if !((index <= home && home < gap) || (home < gap && gap < index) || (gap < index
                && index <= home)) {
                let ghost before = self.table@;
                let mut moved = KeyValue::empty();
                core::mem::swap(&mut self.table[index], &mut moved);
                let ghost emptied = self.table@[index as int];
                let ghost lifted = self.table@;
                self.table[gap] = moved;
                proof {
                    assert(lifted =~= before.update(index as int, emptied));
                    assert(self.table@ =~= lifted.update(gap as int, before[index as int]));
                    probing::lemma_view_holds(before, index as int, before[index as int].key());
                    probing::lemma_view_clear(before, index as int, emptied);
                    probing::lemma_view_put(lifted, gap as int, before[index as int]);
                    probing::lemma_count_update(before, index as int, emptied);
                    probing::lemma_count_update(lifted, gap as int, before[index as int]);
                    probing::lemma_move_shifts_gap(before, gap as int, index as int, emptied);
                    assert(self@ =~= target);
                }
                gap = index;
            }
        }
    }
}

/// The map after `values` have been stored for `key`, one after another.
pub open spec fn set_all<K: PartialEq, V>(map: Map<K, V>, key: K, values: Seq<V>) -> Map<K, V>
    decreases values.len(),
{
    if values.len() == 0 {
        map
    } else {
        set_all(with_entry(map, key, values.first()), key, values.drop_first())
    }
}

/// After any number of values have been stored for one key, the key finds
/// the value that was stored last, and the other keys are as they were.
pub proof fn lemma_last_set_wins<K: crate::hash::Hash + PartialEq, V>(
    map: Map<K, V>,
    key: K,
    values: Seq<V>,
)
    requires
        obeys_key_model::<K>(),
        keys_apart(map),
        values.len() > 0,
    ensures
        set_all(map, key, values) == with_entry(map, key, values.last()),
        key_like(set_all(map, key, values), key) == Some(key_for(map, key)),
        set_all(map, key, values)[key_for(map, key)] == values.last(),
        keys_apart(set_all(map, key, values)),
    decreases values.len(),
{
    let first = with_entry(map, key, values.first());
    let rest = values.drop_first();
    lemma_with_entry(map, key, values.first());
    lemma_with_entry(map, key, values.last());
    if rest.len() == 0 {
        assert(set_all(first, key, rest) == first);
    } else {
        lemma_last_set_wins(first, key, rest);
        assert(with_entry(first, key, rest.last()) =~= with_entry(map, key, values.last()));
    }
}

/// After a value has been stored for a key, a lookup of any key that equals
/// it returns that value.
pub proof fn lemma_get_after_set<K: crate::hash::Hash + PartialEq, V>(
    map: &mut HashMap<K, V>,
    k: K,
    v: V,
    after: HashMap<K, V>,
    asked: K,
    got: Option<&V>,
)
    requires
        call_requires(HashMap::<K, V>::set, (map, k, v)),
        call_ensures(HashMap::<K, V>::set, (map, k, v), ()),
        after == *final(map),
        k.eq_spec(&asked),
        call_ensures(HashMap::<K, V>::get, (&after, asked), got),
    ensures
        got == Some(&v),
{
    lemma_keys_apart(after);
    lemma_equal_keys_find_same(after@, k, asked);
}

/// In every well-formed map the key type obeys the key model, and no two
/// keys are equal.
pub proof fn lemma_keys_apart<K: crate::hash::Hash + PartialEq, V>(map: HashMap<K, V>)
    requires
        map.wf(),
    ensures
        obeys_key_model::<K>(),
        keys_apart(map@),
{
}

/// In every well-formed map at most three quarters of the slots are
/// occupied, and the number of slots is zero or a power of two that is at
/// least four.
pub proof fn lemma_load_factor<K: crate::hash::Hash + PartialEq, V>(map: HashMap<K, V>)
    requires
        map.wf(),
    ensures
        map@.dom().finite(),
        4 * map@.len() <= 3 * map.capacity(),
        map.capacity() == 0 || (map.capacity() >= 4 && is_power_of_two(map.capacity() as int)),
{
}

} // verus!
