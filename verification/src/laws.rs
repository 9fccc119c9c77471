//! What holds of a shard under any sequence of writes, stated over the
//! bucket's model and proved.

use vstd::prelude::*;
use crate::bucket::as_map;
use crate::bucket::distinct_keys;
use crate::bucket::has_key;
use crate::bucket::slot_of;
use crate::bucket::value_of;
use crate::bucket::with_entry;
use crate::bucket::with_new_entry;
use crate::hint::occupancy_step;
use crate::hint::rules_out_lookup;
use crate::index::shard_of;

verus! {

/// Among distinct keys, the entry that holds a key is the only one.
pub proof fn lemma_slot_is_unique<K, V>(entries: Seq<(K, V)>, key: K, i: int)
    requires
        distinct_keys(entries),
        0 <= i < entries.len(),
        entries[i].0 == key,
    ensures
        has_key(entries, key),
        slot_of(entries, key) == i,
        value_of(entries, key) == Some(entries[i].1),
{
    let s = slot_of(entries, key);
    if s < i {
        assert(entries[s].0 != entries[i].0);
    } else if i < s {
        assert(entries[i].0 != entries[s].0);
    }
}

/// Writing a value to the entry of a present key changes what is found
/// under that key and nothing else; the keys stay distinct.
pub proof fn lemma_value_written<K, V>(entries: Seq<(K, V)>, key: K, value: V)
    requires
        distinct_keys(entries),
        has_key(entries, key),
    ensures
        ({
            let i = slot_of(entries, key);
            let written = entries.update(i, (entries[i].0, value));
            &&& distinct_keys(written)
            &&& written.len() == entries.len()
            &&& value_of(written, key) == Some(value)
            &&& forall|other: K|
                other != key ==> has_key(written, other) == has_key(entries, other) && value_of(
                    written,
                    other,
                ) == value_of(entries, other)
        }),
{
    let i = slot_of(entries, key);
    let written = entries.update(i, (entries[i].0, value));
    assert forall|a: int, b: int| 0 <= a < b < written.len() implies written[a].0 != written[b].0 by {
        assert(entries[a].0 != entries[b].0);
    }
    lemma_slot_is_unique(written, key, i);
    assert forall|other: K| other != key implies has_key(written, other) == has_key(entries, other)
        && value_of(written, other) == value_of(entries, other) by {
        if has_key(entries, other) {
            let j = slot_of(entries, other);
            assert(written[j] == entries[j]);
            lemma_slot_is_unique(written, other, j);
        }
        if has_key(written, other) {
            let j = slot_of(written, other);
            assert(entries[j].0 == other);
        }
    }
}

/// Appending an entry under an absent key makes that key found with the
/// appended value and changes nothing else; the keys stay distinct.
pub proof fn lemma_entry_appended<K, V>(entries: Seq<(K, V)>, key: K, value: V)
    requires
        distinct_keys(entries),
        !has_key(entries, key),
    ensures
        ({
            let grown = entries.push((key, value));
            &&& distinct_keys(grown)
            &&& grown.len() == entries.len() + 1
            &&& value_of(grown, key) == Some(value)
            &&& forall|other: K|
                other != key ==> has_key(grown, other) == has_key(entries, other) && value_of(
                    grown,
                    other,
                ) == value_of(entries, other)
        }),
{
    let grown = entries.push((key, value));
    assert forall|a: int, b: int| 0 <= a < b < grown.len() implies grown[a].0 != grown[b].0 by {
        if b < entries.len() {
            assert(entries[a].0 != entries[b].0);
        } else {
            assert(grown[a] == entries[a]);
        }
    }
    lemma_slot_is_unique(grown, key, entries.len() as int);
    assert forall|other: K| other != key implies has_key(grown, other) == has_key(entries, other)
        && value_of(grown, other) == value_of(entries, other) by {
        if has_key(entries, other) {
            let j = slot_of(entries, other);
            assert(grown[j] == entries[j]);
            lemma_slot_is_unique(grown, other, j);
        }
        if has_key(grown, other) {
            let j = slot_of(grown, other);
            assert(grown[j] == entries[j]);
        }
    }
}

/// An insertion makes its key found with its value, keeps the keys distinct,
/// leaves every other key as it was, and lengthens the bucket by one exactly
/// where the key was new.
pub proof fn lemma_insert<K, V>(entries: Seq<(K, V)>, key: K, value: V)
    requires
        distinct_keys(entries),
    ensures
        ({
            let after = with_entry(entries, key, value);
            &&& distinct_keys(after)
            &&& value_of(after, key) == Some(value)
            &&& after.len() == entries.len() + occupancy_step(!has_key(entries, key))
            &&& forall|other: K|
                other != key ==> has_key(after, other) == has_key(entries, other) && value_of(
                    after,
                    other,
                ) == value_of(entries, other)
        }),
{
    if has_key(entries, key) {
        lemma_value_written(entries, key, value);
    } else {
        lemma_entry_appended(entries, key, value);
    }
}

/// An insertion of a new entry only: on a present key nothing changes, on an
/// absent one it does what an insertion does.
pub proof fn lemma_insert_new<K, V>(entries: Seq<(K, V)>, key: K, value: V)
    requires
        distinct_keys(entries),
    ensures
        ({
            let after = with_new_entry(entries, key, value);
            &&& distinct_keys(after)
            &&& has_key(entries, key) ==> after == entries
            &&& !has_key(entries, key) ==> after == with_entry(entries, key, value)
            &&& has_key(after, key)
            &&& after.len() == entries.len() + occupancy_step(!has_key(entries, key))
            &&& forall|other: K|
                other != key ==> has_key(after, other) == has_key(entries, other) && value_of(
                    after,
                    other,
                ) == value_of(entries, other)
        }),
{
    if !has_key(entries, key) {
        lemma_entry_appended(entries, key, value);
    }
}

/// A bucket is a finite map: an insertion is the map's insertion, an
/// insertion of a new entry only is one where the key is absent, and a lookup
/// is the map's lookup.
pub proof fn lemma_bucket_is_a_map<K, V>(entries: Seq<(K, V)>, key: K, value: V)
    requires
        distinct_keys(entries),
    ensures
        as_map(Seq::<(K, V)>::empty()) == Map::<K, V>::empty(),
        value_of(entries, key) == as_map(entries).get(key),
        as_map(with_entry(entries, key, value)) == as_map(entries).insert(key, value),
        as_map(with_new_entry(entries, key, value)) == if as_map(entries).contains_key(key) {
            as_map(entries)
        } else {
            as_map(entries).insert(key, value)
        },
{
    lemma_insert(entries, key, value);
    lemma_insert_new(entries, key, value);
    assert(as_map(Seq::<(K, V)>::empty()) =~= Map::<K, V>::empty());
    assert(as_map(with_entry(entries, key, value)) =~= as_map(entries).insert(key, value));
    if !has_key(entries, key) {
        assert(with_new_entry(entries, key, value) == with_entry(entries, key, value));
    }
}

/// Round trip: after `key` was inserted with `value`, a lookup of `key`
/// yields `value`.
pub proof fn lemma_insert_then_get<K, V>(entries: Seq<(K, V)>, key: K, value: V)
    requires
        distinct_keys(entries),
    ensures
        value_of(with_entry(entries, key, value), key) == Some(value),
{
    lemma_insert(entries, key, value);
}

/// Replacement: a second insertion under one key hands back the first value,
/// and a lookup afterwards yields the second.
pub proof fn lemma_insert_twice<K, V>(entries: Seq<(K, V)>, key: K, first: V, second: V)
    requires
        distinct_keys(entries),
    ensures
        ({
            let once = with_entry(entries, key, first);
            let twice = with_entry(once, key, second);
            &&& value_of(once, key) == Some(first)
            &&& value_of(twice, key) == Some(second)
            &&& twice.len() == once.len()
        }),
{
    lemma_insert(entries, key, first);
    lemma_insert(with_entry(entries, key, first), key, second);
}

/// No clobbering: an insertion of a new entry only, under a key that was
/// inserted before, leaves the bucket as it was and the first value in place.
pub proof fn lemma_insert_then_insert_new<K, V>(entries: Seq<(K, V)>, key: K, first: V, second: V)
    requires
        distinct_keys(entries),
    ensures
        ({
            let once = with_entry(entries, key, first);
            &&& with_new_entry(once, key, second) == once
            &&& value_of(with_new_entry(once, key, second), key) == Some(first)
        }),
{
    lemma_insert(entries, key, first);
}

/// A value written through the accessor of a present key is what a lookup
/// of that key yields afterwards.
pub proof fn lemma_write_then_get<K, V>(entries: Seq<(K, V)>, key: K, value: V)
    requires
        distinct_keys(entries),
        has_key(entries, key),
    ensures
        ({
            let i = slot_of(entries, key);
            value_of(entries.update(i, (entries[i].0, value)), key) == Some(value)
        }),
{
    lemma_value_written(entries, key, value);
}

/// One write to a bucket.
pub enum Write<K, V> {
    /// Store the value under the key, replacing what is there.
    Insert(K, V),
    /// Store the value under the key unless the key is present.
    InsertNew(K, V),
}

/// The key that a write is about.
pub open spec fn written_key<K, V>(write: Write<K, V>) -> K {
    match write {
        Write::Insert(key, _) => key,
        Write::InsertNew(key, _) => key,
    }
}

/// The entries after one write.
pub open spec fn apply<K, V>(entries: Seq<(K, V)>, write: Write<K, V>) -> Seq<(K, V)> {
    match write {
        Write::Insert(key, value) => with_entry(entries, key, value),
        Write::InsertNew(key, value) => with_new_entry(entries, key, value),
    }
}

/// The entries of a bucket that started empty and took `writes` in order.
pub open spec fn replay<K, V>(writes: Seq<Write<K, V>>) -> Seq<(K, V)>
    decreases writes.len(),
{
    if writes.len() == 0 {
        Seq::empty()
    } else {
        apply(replay(writes.drop_last()), writes.last())
    }
}

/// The occupancy count of a shard that started at zero and took `writes` in
/// order: each write that added an entry raised it by one.
pub open spec fn occupancy_after<K, V>(writes: Seq<Write<K, V>>) -> nat
    decreases writes.len(),
{
    if writes.len() == 0 {
        0
    } else {
        occupancy_after(writes.drop_last()) + occupancy_step(
            !has_key(replay(writes.drop_last()), written_key(writes.last())),
        )
    }
}

/// Whatever was written, the keys of a bucket are pairwise distinct, and
/// the occupancy count equals the number of entries.
pub proof fn lemma_replay_is_consistent<K, V>(writes: Seq<Write<K, V>>)
    ensures
        distinct_keys(replay(writes)),
        occupancy_after(writes) == replay(writes).len(),
    decreases writes.len(),
{
    if writes.len() > 0 {
        let before = replay(writes.drop_last());
        lemma_replay_is_consistent(writes.drop_last());
        match writes.last() {
            Write::Insert(key, value) => lemma_insert(before, key, value),
            Write::InsertNew(key, value) => lemma_insert_new(before, key, value),
        }
    }
}

/// Absence: a key that no write was about is not found.
pub proof fn lemma_never_written_is_absent<K, V>(writes: Seq<Write<K, V>>, key: K)
    requires
        forall|i: int| 0 <= i < writes.len() ==> written_key(#[trigger] writes[i]) != key,
    ensures
        !has_key(replay(writes), key),
        value_of(replay(writes), key) == None::<V>,
    decreases writes.len(),
{
    if writes.len() > 0 {
        let earlier = writes.drop_last();
        let before = replay(earlier);
        assert forall|i: int| 0 <= i < earlier.len() implies written_key(#[trigger] earlier[i])
            != key by {
            assert(earlier[i] == writes[i]);
        }
        lemma_never_written_is_absent(earlier, key);
        lemma_replay_is_consistent(earlier);
        match writes.last() {
            Write::Insert(k, v) => lemma_insert(before, k, v),
            Write::InsertNew(k, v) => lemma_insert_new(before, k, v),
        }
    }
}

/// Presence: a key stays found, whatever is written after its insertion.
pub proof fn lemma_written_stays_present<K, V>(writes: Seq<Write<K, V>>, i: int)
    requires
        0 <= i < writes.len(),
    ensures
        has_key(replay(writes), written_key(writes[i])),
    decreases writes.len(),
{
    let earlier = writes.drop_last();
    let before = replay(earlier);
    let key = written_key(writes[i]);
    lemma_replay_is_consistent(earlier);
    match writes.last() {
        Write::Insert(k, v) => lemma_insert(before, k, v),
        Write::InsertNew(k, v) => lemma_insert_new(before, k, v),
    }
    if i < writes.len() - 1 {
        assert(earlier[i] == writes[i]);
        lemma_written_stays_present(earlier, i);
    }
}

/// The hint is sound: where the occupancy count equals the number of
/// entries, a count that rules a lookup out belongs to a bucket without
/// keys, and a bucket that holds a key has a count that leads to a scan.
pub proof fn lemma_hint_hides_no_key<K, V>(entries: Seq<(K, V)>, occupancy: usize, key: K)
    requires
        occupancy == entries.len(),
    ensures
        rules_out_lookup(occupancy) ==> !has_key(entries, key) && value_of(entries, key)
            == None::<V>,
        has_key(entries, key) ==> !rules_out_lookup(occupancy),
{
}

/// The hint is sound after any writes: a shard whose count reads zero holds
/// no key, and the count of a shard that took a write never reads zero, so
/// that every key that was written is looked for under the lock.
pub proof fn lemma_hint_after_writes<K, V>(writes: Seq<Write<K, V>>, occupancy: usize, key: K)
    requires
        occupancy == occupancy_after(writes),
    ensures
        rules_out_lookup(occupancy) ==> !has_key(replay(writes), key),
        writes.len() > 0 ==> !rules_out_lookup(occupancy),
        forall|i: int|
            0 <= i < writes.len() ==> has_key(replay(writes), written_key(#[trigger] writes[i])),
{
    lemma_replay_is_consistent(writes);
    assert forall|i: int| 0 <= i < writes.len() implies has_key(
        replay(writes),
        written_key(#[trigger] writes[i]),
    ) by {
        lemma_written_stays_present(writes, i);
    }
    if writes.len() > 0 {
        assert(has_key(replay(writes), written_key(writes[0])));
    }
}

/// The shard of a hash lies within the shard array.
pub proof fn lemma_shard_in_range(hash: u64, shard_count: nat)
    requires
        shard_count > 0,
    ensures
        shard_of(hash, shard_count) < shard_count,
{
}

} // verus!
