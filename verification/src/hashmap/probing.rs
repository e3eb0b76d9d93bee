//! What holds of a table of slots: the map that it stores, and how the
//! probe paths of its entries stay unbroken when slots are filled, emptied
//! and shifted.

use crate::hashmap::home_of;
use crate::hashmap::key_like;
use crate::hashmap::keys_apart;
use crate::hashmap::next_index;
use crate::hashmap::probe_distance;
use crate::hashmap::KeyValue;
use vstd::prelude::*;
use vstd::std_specs::cmp::PartialEqSpec;

verus! {

/// The slot at which the entry in slot `i` of `table` started probing.
pub(super) open spec fn home_at<K: crate::hash::Hash + PartialEq, V>(
    table: Seq<KeyValue<K, V>>,
    i: int,
) -> int {
    home_of(table[i].stored_hash(), table.len() as usize) as int
}

/// Every slot is well formed.
pub(super) open spec fn slots_wf<K: crate::hash::Hash + PartialEq, V>(
    table: Seq<KeyValue<K, V>>,
) -> bool {
    forall|i: int| 0 <= i < table.len() ==> (#[trigger] table[i]).wf()
}

/// Every slot that an entry passed on the way from its home to its place is
/// occupied, with the one exception of slot `gap`.
pub(super) open spec fn probes_unbroken_except<K: crate::hash::Hash + PartialEq, V>(
    table: Seq<KeyValue<K, V>>,
    gap: int,
) -> bool {
    forall|i: int, p: int|
        #![trigger table[i], table[p]]
        0 <= i < table.len() && 0 <= p < table.len() && table[i].stored_hash() != 0 && p != gap
            && probe_distance(home_at(table, i), p, table.len() as int) < probe_distance(
            home_at(table, i),
            i,
            table.len() as int,
        ) ==> table[p].stored_hash() != 0
}

/// No key is stored in two slots.
pub(super) open spec fn keys_distinct<K: crate::hash::Hash + PartialEq, V>(
    table: Seq<KeyValue<K, V>>,
) -> bool {
    forall|i: int, j: int|
        #![trigger table[i], table[j]]
        0 <= i < table.len() && 0 <= j < table.len() && table[i].stored_hash() != 0
            && table[j].stored_hash() != 0 && table[i].key() == table[j].key() ==> i == j
}

/// Slot `i` of `table` is occupied by the key `key`.
pub(super) open spec fn holds_key<K: crate::hash::Hash + PartialEq, V>(
    table: Seq<KeyValue<K, V>>,
    i: int,
    key: K,
) -> bool {
    0 <= i < table.len() && table[i].stored_hash() != 0 && table[i].key() == key
}

/// Slot `i` of `table` is occupied by a key that `key` equals.
pub(super) open spec fn like_key<K: crate::hash::Hash + PartialEq, V>(
    table: Seq<KeyValue<K, V>>,
    i: int,
    key: K,
) -> bool {
    0 <= i < table.len() && table[i].stored_hash() != 0 && key.eq_spec(&table[i].key())
}

/// The map that `table` stores: each occupied slot's key with its value.
pub(super) open spec fn table_view<K: crate::hash::Hash + PartialEq, V>(
    table: Seq<KeyValue<K, V>>,
) -> Map<K, V> {
    Map::new(
        |key: K| exists|i: int| holds_key(table, i, key),
        |key: K| table[choose|i: int| holds_key(table, i, key)].value(),
    )
}

/// The number of occupied slots.
pub(super) open spec fn occupied_count<K: crate::hash::Hash + PartialEq, V>(
    table: Seq<KeyValue<K, V>>,
) -> nat
    decreases table.len(),
{
    if table.len() == 0 {
        0
    } else {
        occupied_count(table.drop_last()) + if table.last().stored_hash() != 0 {
            1nat
        } else {
            0nat
        }
    }
}

/// What holds of the slots of every map: well-formed slots, distinct keys and
/// unbroken probe paths.
pub(super) open spec fn table_inv<K: crate::hash::Hash + PartialEq, V>(
    table: Seq<KeyValue<K, V>>,
) -> bool {
    &&& slots_wf(table)
    &&& keys_distinct(table)
    &&& probes_unbroken_except(table, -1)
}

/// Every hash starts probing at a slot of the table.
pub(super) proof fn lemma_home_in_range(capacity: usize)
    requires
        capacity > 0,
    ensures
        forall|h: usize| #[trigger] home_of(h, capacity) < capacity,
{
    assert forall|h: usize| #[trigger] home_of(h, capacity) < capacity by {
        let mask = (capacity - 1) as usize;
        assert(h & mask <= mask) by (bit_vector);
    }
}

/// Replacing one slot changes the number of occupied slots by what the slot
/// gained or lost.
pub(super) proof fn lemma_count_update<K: crate::hash::Hash + PartialEq, V>(
    table: Seq<KeyValue<K, V>>,
    i: int,
    slot: KeyValue<K, V>,
)
    requires
        0 <= i < table.len(),
    ensures
        occupied_count(table.update(i, slot)) + (if table[i].stored_hash() != 0 {
            1int
        } else {
            0int
        }) == occupied_count(table) + (if slot.stored_hash() != 0 {
            1int
        } else {
            0int
        }),
    decreases table.len(),
{
    let updated = table.update(i, slot);
    if i == table.len() - 1 {
        assert(updated.drop_last() =~= table.drop_last());
    } else {
        assert(updated.drop_last() =~= table.drop_last().update(i, slot));
        lemma_count_update(table.drop_last(), i, slot);
    }
}

/// A slot added at the end counts if it is occupied.
pub(super) proof fn lemma_count_push<K: crate::hash::Hash + PartialEq, V>(
    table: Seq<KeyValue<K, V>>,
    slot: KeyValue<K, V>,
)
    ensures
        occupied_count(table.push(slot)) == occupied_count(table) + (if slot.stored_hash() != 0 {
            1nat
        } else {
            0nat
        }),
{
    assert(table.push(slot).drop_last() =~= table);
}

/// A table with fewer entries than slots has an empty slot.
pub(super) proof fn lemma_has_empty<K: crate::hash::Hash + PartialEq, V>(
    table: Seq<KeyValue<K, V>>,
) -> (e: int)
    requires
        occupied_count(table) < table.len(),
    ensures
        0 <= e < table.len(),
        table[e].stored_hash() == 0,
    decreases table.len(),
{
    if table.last().stored_hash() == 0 {
        table.len() - 1
    } else {
        lemma_has_empty(table.drop_last())
    }
}

/// A key that some slot holds is in the view, with that slot's value.
pub(super) proof fn lemma_view_holds<K: crate::hash::Hash + PartialEq, V>(
    table: Seq<KeyValue<K, V>>,
    i: int,
    key: K,
)
    requires
        keys_distinct(table),
        holds_key(table, i, key),
    ensures
        table_view(table).contains_key(key),
        table_view(table)[key] == table[i].value(),
{
    let j = choose|j: int| holds_key(table, j, key);
    assert(holds_key(table, j, key));
    assert(table[i].key() == table[j].key());
}

/// Putting an entry into an empty slot, where its key is new, or into the slot
/// that holds its key, inserts it into the view.
pub(super) proof fn lemma_view_put<K: crate::hash::Hash + PartialEq, V>(
    table: Seq<KeyValue<K, V>>,
    i: int,
    slot: KeyValue<K, V>,
)
    requires
        keys_distinct(table),
        0 <= i < table.len(),
        slot.stored_hash() != 0,
        holds_key(table, i, slot.key()) || (table[i].stored_hash() == 0 && !table_view(
            table,
        ).contains_key(slot.key())),
    ensures
        keys_distinct(table.update(i, slot)),
        table_view(table.update(i, slot)) =~= table_view(table).insert(slot.key(), slot.value()),
{
    let updated = table.update(i, slot);
    assert forall|a: int, b: int|
        #![trigger updated[a], updated[b]]
        0 <= a < updated.len() && 0 <= b < updated.len() && updated[a].stored_hash() != 0
            && updated[b].stored_hash() != 0 && updated[a].key() == updated[b].key() implies a
        == b by {
        if a != b {
            if a == i {
                assert(holds_key(table, b, slot.key()));
                assert(table[b].key() == table[i].key() || table[i].stored_hash() == 0);
            } else if b == i {
                assert(holds_key(table, a, slot.key()));
                assert(table[a].key() == table[i].key() || table[i].stored_hash() == 0);
            } else {
                assert(table[a].key() == table[b].key());
            }
        }
    }
    assert(holds_key(updated, i, slot.key()));
    lemma_view_holds(updated, i, slot.key());
    assert forall|key: K| #[trigger]
        table_view(updated).contains_key(key) <==> table_view(table).insert(
            slot.key(),
            slot.value(),
        ).contains_key(key) by {
        if key != slot.key() {
            if table_view(updated).contains_key(key) {
                let j = choose|j: int| holds_key(updated, j, key);
                assert(holds_key(table, j, key));
            }
            if table_view(table).contains_key(key) {
                let j = choose|j: int| holds_key(table, j, key);
                assert(holds_key(updated, j, key));
            }
        }
    }
    assert forall|key: K| #[trigger]
        table_view(updated).contains_key(key) implies table_view(updated)[key] == table_view(
        table,
    ).insert(slot.key(), slot.value())[key] by {
        if key != slot.key() {
            let j = choose|j: int| holds_key(updated, j, key);
            assert(holds_key(table, j, key));
            lemma_view_holds(updated, j, key);
            lemma_view_holds(table, j, key);
        }
    }
}

/// Emptying an occupied slot removes its key from the view.
pub(super) proof fn lemma_view_clear<K: crate::hash::Hash + PartialEq, V>(
    table: Seq<KeyValue<K, V>>,
    i: int,
    slot: KeyValue<K, V>,
)
    requires
        keys_distinct(table),
        0 <= i < table.len(),
        table[i].stored_hash() != 0,
        slot.stored_hash() == 0,
    ensures
        keys_distinct(table.update(i, slot)),
        table_view(table.update(i, slot)) =~= table_view(table).remove(table[i].key()),
{
    let updated = table.update(i, slot);
    let gone = table[i].key();
    assert forall|a: int, b: int|
        #![trigger updated[a], updated[b]]
        0 <= a < updated.len() && 0 <= b < updated.len() && updated[a].stored_hash() != 0
            && updated[b].stored_hash() != 0 && updated[a].key() == updated[b].key() implies a
        == b by {
        assert(table[a].key() == table[b].key());
    }
    assert forall|key: K| #[trigger]
        table_view(updated).contains_key(key) <==> table_view(table).remove(gone).contains_key(
            key,
        ) by {
        if table_view(updated).contains_key(key) {
            let j = choose|j: int| holds_key(updated, j, key);
            assert(holds_key(table, j, key));
            assert(table[j].key() == table[i].key() ==> j == i);
        }
        if table_view(table).contains_key(key) && key != gone {
            let j = choose|j: int| holds_key(table, j, key);
            assert(holds_key(updated, j, key));
        }
    }
    assert forall|key: K| #[trigger]
        table_view(updated).contains_key(key) implies table_view(updated)[key] == table_view(
        table,
    ).remove(gone)[key] by {
        let j = choose|j: int| holds_key(updated, j, key);
        assert(holds_key(table, j, key));
        lemma_view_holds(updated, j, key);
        lemma_view_holds(table, j, key);
    }
}

/// Putting an entry into the first empty slot of its probe path, or over an
/// entry with the same hash, leaves every probe path unbroken.
pub(super) proof fn lemma_put_keeps_probes<K: crate::hash::Hash + PartialEq, V>(
    table: Seq<KeyValue<K, V>>,
    i: int,
    slot: KeyValue<K, V>,
)
    requires
        probes_unbroken_except(table, -1),
        0 <= i < table.len(),
        slot.stored_hash() != 0,
        table[i].stored_hash() == slot.stored_hash() || forall|p: int|
            0 <= p < table.len() && probe_distance(
                home_of(slot.stored_hash(), table.len() as usize) as int,
                p,
                table.len() as int,
            ) < probe_distance(
                home_of(slot.stored_hash(), table.len() as usize) as int,
                i,
                table.len() as int,
            ) ==> (#[trigger] table[p]).stored_hash() != 0,
    ensures
        probes_unbroken_except(table.update(i, slot), -1),
{
    let updated = table.update(i, slot);
    let n = table.len() as int;
    assert forall|a: int, p: int|
        #![trigger updated[a], updated[p]]
        0 <= a < n && 0 <= p < n && updated[a].stored_hash() != 0 && probe_distance(
            home_at(updated, a),
            p,
            n,
        ) < probe_distance(home_at(updated, a), a, n) implies updated[p].stored_hash() != 0 by {
        if p != i {
            if a == i {
                if table[i].stored_hash() == slot.stored_hash() {
                    assert(home_at(table, i) == home_at(updated, i));
                    assert(table[p].stored_hash() != 0);
                } else {
                    assert(table[p].stored_hash() != 0);
                }
            } else {
                assert(home_at(table, a) == home_at(updated, a));
                assert(table[a].stored_hash() != 0);
                assert(table[p].stored_hash() != 0);
            }
        }
    }
}

/// Emptying a slot breaks no probe path but at that slot.
pub(super) proof fn lemma_clear_opens_gap<K: crate::hash::Hash + PartialEq, V>(
    table: Seq<KeyValue<K, V>>,
    gap: int,
    slot: KeyValue<K, V>,
)
    requires
        probes_unbroken_except(table, -1),
        0 <= gap < table.len(),
        slot.stored_hash() == 0,
    ensures
        probes_unbroken_except(table.update(gap, slot), gap),
{
    let updated = table.update(gap, slot);
    let n = table.len() as int;
    assert forall|i: int, p: int|
        #![trigger updated[i], updated[p]]
        0 <= i < n && 0 <= p < n && updated[i].stored_hash() != 0 && p != gap && probe_distance(
            home_at(updated, i),
            p,
            n,
        ) < probe_distance(home_at(updated, i), i, n) implies updated[p].stored_hash() != 0 by {
        assert(home_at(table, i) == home_at(updated, i));
        assert(table[i].stored_hash() != 0);
        assert(table[p].stored_hash() != 0);
    }
}

/// Moving an entry whose probe path crosses the gap into the gap leaves the
/// probe paths unbroken but at the slot that the entry left.
pub(super) proof fn lemma_move_shifts_gap<K: crate::hash::Hash + PartialEq, V>(
    table: Seq<KeyValue<K, V>>,
    gap: int,
    index: int,
    emptied: KeyValue<K, V>,
)
    requires
        probes_unbroken_except(table, gap),
        0 <= gap < table.len(),
        0 <= index < table.len(),
        gap != index,
        table[gap].stored_hash() == 0,
        table[index].stored_hash() != 0,
        emptied.stored_hash() == 0,
        0 <= home_at(table, index) < table.len(),
        probe_distance(home_at(table, index), index, table.len() as int) >= probe_distance(
            gap,
            index,
            table.len() as int,
        ),
    ensures
        probes_unbroken_except(table.update(index, emptied).update(gap, table[index]), index),
{
    let moved = table.update(index, emptied).update(gap, table[index]);
    let n = table.len() as int;
    assert forall|i: int, p: int|
        #![trigger moved[i], moved[p]]
        0 <= i < n && 0 <= p < n && moved[i].stored_hash() != 0 && p != index && probe_distance(
            home_at(moved, i),
            p,
            n,
        ) < probe_distance(home_at(moved, i), i, n) implies moved[p].stored_hash() != 0 by {
        if p != gap {
            if i == gap {
                assert(home_at(moved, gap) == home_at(table, index));
                assert(table[index].stored_hash() != 0);
                assert(table[p].stored_hash() != 0);
            } else {
                assert(home_at(moved, i) == home_at(table, i));
                assert(table[i].stored_hash() != 0);
                assert(table[p].stored_hash() != 0);
            }
        }
    }
}

/// Once the scan below the gap meets an empty slot, having passed only
/// entries whose probe paths do not cross the gap, no probe path is broken.
pub(super) proof fn lemma_scan_closes_gap<K: crate::hash::Hash + PartialEq, V>(
    table: Seq<KeyValue<K, V>>,
    gap: int,
    index: int,
    stop: int,
)
    requires
        probes_unbroken_except(table, gap),
        0 <= gap < table.len(),
        0 <= index < table.len(),
        stop == next_index(index, table.len() as int),
        stop != gap,
        table[stop].stored_hash() == 0,
        forall|i: int| 0 <= i < table.len() ==> 0 <= #[trigger] home_at(table, i) < table.len(),
        forall|p: int|
            0 <= p < table.len() && 0 < probe_distance(gap, p, table.len() as int)
                <= probe_distance(gap, index, table.len() as int) ==> (
            #[trigger] table[p]).stored_hash() != 0 && probe_distance(
                home_at(table, p),
                p,
                table.len() as int,
            ) < probe_distance(gap, p, table.len() as int),
    ensures
        probes_unbroken_except(table, -1),
{
    let n = table.len() as int;
    assert forall|i: int, p: int|
        #![trigger table[i], table[p]]
        0 <= i < n && 0 <= p < n && table[i].stored_hash() != 0 && probe_distance(
            home_at(table, i),
            p,
            n,
        ) < probe_distance(home_at(table, i), i, n) implies table[p].stored_hash() != 0 by {
        if p == gap {
            let h = home_at(table, i);
            assert(0 <= h < n);
            assert(table[stop].stored_hash() == 0);
            assert(probe_distance(h, stop, n) >= probe_distance(h, i, n));
            assert(stop != i);
            assert(0 < probe_distance(gap, i, n) <= probe_distance(gap, index, n));
            assert(table[i].stored_hash() != 0 && probe_distance(home_at(table, i), i, n)
                < probe_distance(gap, i, n));
        }
    }
}

/// A key that equals the key of a slot finds that slot's key, and no other,
/// among the keys of the view.
pub(super) proof fn lemma_like_found<K: crate::hash::Hash + PartialEq, V>(
    table: Seq<KeyValue<K, V>>,
    i: int,
    key: K,
)
    requires
        forall|a: K, b: K| #[trigger] a.eq_spec(&b) ==> b.eq_spec(&a),
        forall|a: K, b: K, c: K|
            #[trigger] a.eq_spec(&b) && #[trigger] b.eq_spec(&c) ==> a.eq_spec(&c),
        keys_distinct(table),
        keys_apart(table_view(table)),
        like_key(table, i, key),
    ensures
        key_like(table_view(table), key) == Some(table[i].key()),
        table_view(table).contains_key(table[i].key()),
        table_view(table)[table[i].key()] == table[i].value(),
{
    let stored = table[i].key();
    let view = table_view(table);
    lemma_view_holds(table, i, stored);
    assert(view.contains_key(stored) && key.eq_spec(&stored));
    let chosen = choose|s: K| view.contains_key(s) && #[trigger] key.eq_spec(&s);
    assert(view.contains_key(chosen) && key.eq_spec(&chosen));
    assert(chosen.eq_spec(&key));
    assert(chosen.eq_spec(&stored));
}

/// A key that equals the key of no slot finds no key of the view.
pub(super) proof fn lemma_like_absent<K: crate::hash::Hash + PartialEq, V>(
    table: Seq<KeyValue<K, V>>,
    key: K,
)
    requires
        forall|j: int| !like_key(table, j, key),
    ensures
        key_like(table_view(table), key) is None,
{
    assert forall|s: K| table_view(table).contains_key(s) implies !(#[trigger] key.eq_spec(
        &s,
    )) by {
        let j = choose|j: int| holds_key(table, j, s);
        assert(holds_key(table, j, s));
        assert(!like_key(table, j, key));
    }
}

} // verus!
