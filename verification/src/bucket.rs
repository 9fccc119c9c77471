//! One shard's storage: an unordered sequence of key/value entries in which
//! every key occurs at most once, searched by a linear scan.

use vstd::prelude::*;
use vstd::laws_eq::obeys_concrete_eq;
use vstd::std_specs::cmp::PartialEqSpec;

verus! {

/// No two entries hold the same key.
pub open spec fn distinct_keys<K, V>(entries: Seq<(K, V)>) -> bool {
    forall|i: int, j: int| 0 <= i < j < entries.len() ==> entries[i].0 != entries[j].0
}

/// Some entry holds `key`.
pub open spec fn has_key<K, V>(entries: Seq<(K, V)>, key: K) -> bool {
    exists|i: int| 0 <= i < entries.len() && entries[i].0 == key
}

/// The position of an entry that holds `key`. Meaningful where `has_key` holds;
/// unique where the keys are distinct.
pub open spec fn slot_of<K, V>(entries: Seq<(K, V)>, key: K) -> int {
    choose|i: int| 0 <= i < entries.len() && entries[i].0 == key
}

/// The value stored under `key`, if any.
pub open spec fn value_of<K, V>(entries: Seq<(K, V)>, key: K) -> Option<V> {
    if has_key(entries, key) {
        Some(entries[slot_of(entries, key)].1)
    } else {
        None
    }
}

/// The finite map that the entries stand for.
pub open spec fn as_map<K, V>(entries: Seq<(K, V)>) -> Map<K, V> {
    Map::new(|key: K| has_key(entries, key), |key: K| entries[slot_of(entries, key)].1)
}

/// The entries after storing `value` under `key`: the value of an existing
/// entry is replaced in place and its stored key kept, a new entry goes to the end.
pub open spec fn with_entry<K, V>(entries: Seq<(K, V)>, key: K, value: V) -> Seq<(K, V)> {
    if has_key(entries, key) {
        let i = slot_of(entries, key);
        entries.update(i, (entries[i].0, value))
    } else {
        entries.push((key, value))
    }
}

/// The entries after storing `value` under `key` only if the key is absent.
pub open spec fn with_new_entry<K, V>(entries: Seq<(K, V)>, key: K, value: V) -> Seq<(K, V)> {
    if has_key(entries, key) {
        entries
    } else {
        entries.push((key, value))
    }
}

/// `probe` equals the key at position `i` and no key before it.
pub open spec fn first_match<K, V, Q: PartialEq<K> + ?Sized>(
    entries: Seq<(K, V)>,
    probe: &Q,
    i: int,
) -> bool {
    &&& 0 <= i < entries.len()
    &&& probe.eq_spec(&entries[i].0)
    &&& forall|j: int| 0 <= j < i ==> !probe.eq_spec(&(#[trigger] entries[j]).0)
}

/// `probe` equals no key of `entries`.
pub open spec fn no_match<K, V, Q: PartialEq<K> + ?Sized>(entries: Seq<(K, V)>, probe: &Q) -> bool {
    forall|j: int| 0 <= j < entries.len() ==> !probe.eq_spec(&(#[trigger] entries[j]).0)
}

/// Where a key type's `==` is identity, a probe of that type matches exactly
/// the entry that holds it.
pub proof fn lemma_match_is_identity<K: PartialEq, V>(entries: Seq<(K, V)>, probe: &K)
    requires
        obeys_concrete_eq::<K>(),
        distinct_keys(entries),
    ensures
        K::obeys_eq_spec(),
        no_match(entries, probe) <==> !has_key(entries, *probe),
        forall|i: int|
            first_match(entries, probe, i) <==> (has_key(entries, *probe) && i == slot_of(
                entries,
                *probe,
            )),
{
    reveal(obeys_concrete_eq);
    assert forall|i: int| first_match(entries, probe, i) implies (has_key(entries, *probe) && i
        == slot_of(entries, *probe)) by {
        assert(entries[i].0 == *probe);
        let s = slot_of(entries, *probe);
        if s < i {
            assert(entries[s].0 != entries[i].0);
        } else if i < s {
            assert(entries[i].0 != entries[s].0);
        }
    }
    assert forall|i: int| (has_key(entries, *probe) && i == slot_of(entries, *probe)) implies first_match(
        entries,
        probe,
        i,
    ) by {
        assert forall|j: int| 0 <= j < i implies !probe.eq_spec(&(#[trigger] entries[j]).0) by {
            assert(entries[j].0 != entries[i].0);
        }
    }
    if !has_key(entries, *probe) {
        assert forall|j: int| 0 <= j < entries.len() implies !probe.eq_spec(
            &(#[trigger] entries[j]).0,
        ) by {
            assert(entries[j].0 != *probe);
        }
    }
    if no_match(entries, probe) && has_key(entries, *probe) {
        let s = slot_of(entries, *probe);
        assert(probe.eq_spec(&entries[s].0));
    }
}

/// The entries of one shard. Keys and values lie in two vectors of one
/// length, so that a value can be lent out for writing while the keys stay
/// untouched. The keys are pairwise distinct, and the key type's `==` is
/// identity; both hold of every bucket that exists.
pub struct Bucket<K: Eq, V> {
    keys: Vec<K>,
    values: Vec<V>,
}

impl<K: Eq, V> View for Bucket<K, V> {
    type V = Seq<(K, V)>;

    closed spec fn view(&self) -> Seq<(K, V)> {
        Seq::new(self.keys@.len(), |i: int| (self.keys@[i], self.values@[i]))
    }
}

impl<K: Eq, V> Bucket<K, V> {
    #[verifier::type_invariant]
    spec fn well_formed(self) -> bool {
        &&& obeys_concrete_eq::<K>()
        &&& self.keys@.len() == self.values@.len()
        &&& forall|i: int, j: int| 0 <= i < j < self.keys@.len() ==> self.keys@[i] != self.keys@[j]
    }

    /// An empty bucket.
    pub fn new() -> (bucket: Self)
        requires
            obeys_concrete_eq::<K>(),
        ensures
            bucket@ == Seq::<(K, V)>::empty(),
    {
        let bucket = Bucket { keys: Vec::new(), values: Vec::new() };
        assert(bucket@ =~= Seq::<(K, V)>::empty());
        bucket
    }

    /// The number of entries.
    pub fn len(&self) -> (n: usize)
        ensures
            n == self@.len(),
            distinct_keys(self@),
    {
        proof {
            use_type_invariant(self);
        }
        self.keys.len()
    }

    /// Scans from the front for the first key that `probe` equals.
    pub fn position<Q: PartialEq<K> + ?Sized>(&self, probe: &Q) -> (slot: Option<usize>)
        ensures
            slot matches Some(i) ==> i < self@.len(),
            Q::obeys_eq_spec() ==> match slot {
                Some(i) => first_match(self@, probe, i as int),
                None => no_match(self@, probe),
            },
            distinct_keys(self@),
    {
        proof {
            use_type_invariant(self);
        }
        let n: usize = self.keys.len();
        let mut i: usize = 0;
        while i < n
            invariant
                n == self.keys@.len(),
                n == self@.len(),
                i <= n,
                distinct_keys(self@),
                Q::obeys_eq_spec() ==> forall|j: int|
                    0 <= j < i ==> !probe.eq_spec(&(#[trigger] self@[j]).0),
            decreases n - i,
        {
            if probe.eq(&self.keys[i]) {
                return Some(i);
            }
            i += 1;
        }
        None
    }

    /// Whether `probe` equals some key.
    pub fn contains_key<Q: PartialEq<K> + ?Sized>(&self, probe: &Q) -> (present: bool)
        ensures
            Q::obeys_eq_spec() ==> present == !no_match(self@, probe),
    {
        let slot = self.position(probe);
        proof {
            if Q::obeys_eq_spec() && slot is Some {
                assert(probe.eq_spec(&self@[slot->0 as int].0));
            }
        }
        slot.is_some()
    }

    /// The key at `slot`.
    pub fn key_at(&self, slot: usize) -> (key: &K)
        requires
            slot < self@.len(),
        ensures
            *key == self@[slot as int].0,
    {
        &self.keys[slot]
    }

    /// The value at `slot`.
    pub fn value_at(&self, slot: usize) -> (value: &V)
        requires
            slot < self@.len(),
        ensures
            *value == self@[slot as int].1,
    {
        proof {
            use_type_invariant(self);
        }
        &self.values[slot]
    }

    /// Mutable access to the value at `slot`. Whatever is written through the
    /// result becomes that entry's value; keys and the other entries stay.
    pub fn value_at_mut(&mut self, slot: usize) -> (value: &mut V)
        requires
            slot < old(self)@.len(),
        ensures
            *value == old(self)@[slot as int].1,
            final(self)@ == old(self)@.update(
                slot as int,
                (old(self)@[slot as int].0, *final(value)),
            ),
        no_unwind
    {
        proof {
            use_type_invariant(&*self);
        }
        &mut self.values[slot]
    }

    /// Stores `value` under `key`. The value of an existing entry is replaced
    /// and handed back; otherwise a new entry is appended.
    pub fn insert(&mut self, key: K, value: V) -> (displaced: Option<V>)
        ensures
            final(self)@ == with_entry(old(self)@, key, value),
            displaced == value_of(old(self)@, key),
    {
        proof {
            use_type_invariant(&*self);
            assert(distinct_keys(self@));
            lemma_match_is_identity(self@, &key);
        }
        match self.position(&key) {
            Some(i) => {
                let mut value = value;
                let ghost fresh = value;
                std::mem::swap(&mut self.values[i], &mut value);
                assert(self@ =~= with_entry(old(self)@, key, fresh));
                Some(value)
            },
            None => {
                self.append(key, value);
                None
            },
        }
    }

    /// Stores `value` under `key` unless the key is present; says whether an
    /// entry was added. On a present key the bucket stays as it is and the
    /// arguments are dropped.
    pub fn insert_new(&mut self, key: K, value: V) -> (added: bool)
        ensures
            final(self)@ == with_new_entry(old(self)@, key, value),
            added == !has_key(old(self)@, key),
    {
        proof {
            use_type_invariant(&*self);
            assert(distinct_keys(self@));
            lemma_match_is_identity(self@, &key);
        }
        match self.position(&key) {
            Some(_) => false,
            None => {
                self.append(key, value);
                true
            },
        }
    }

    /// Appends an entry whose key the bucket does not hold yet. The two
    /// vectors are moved out for the pushes and back after them, so that the
    /// bucket is well formed at every point where a push could unwind.
    fn append(&mut self, key: K, value: V)
        requires
            !has_key(old(self)@, key),
        ensures
            final(self)@ == old(self)@.push((key, value)),
    {
        proof {
            use_type_invariant(&*self);
        }
        let mut taken = Bucket { keys: Vec::new(), values: Vec::new() };
        std::mem::swap(self, &mut taken);
        let Bucket { mut keys, mut values } = taken;
        keys.push(key);
        values.push(value);
        assert forall|i: int, j: int| 0 <= i < j < keys@.len() implies keys@[i] != keys@[j] by {
            if j == keys@.len() - 1 {
                assert(old(self)@[i].0 == keys@[i]);
            }
        }
        let mut grown = Bucket { keys, values };
        std::mem::swap(self, &mut grown);
    }
}

} // verus!
