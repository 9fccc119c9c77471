//! The map: a fixed array of shards, each a bucket behind its own
//! reader-writer lock with an occupancy count beside it.

use vstd::prelude::*;
use vstd::laws_eq::obeys_concrete_eq;
use vstd::rwlock::RwLock;
use vstd::std_specs::cmp::PartialEqSpec;
use std::borrow::Borrow;
use std::hash::Hash;
use std::sync::atomic::AtomicUsize;
use std::sync::atomic::Ordering;
use crate::bucket::distinct_keys;
use crate::bucket::first_match;
use crate::bucket::Bucket;
use crate::guard::AnyBucket;
use crate::guard::ReadGuard;
use crate::guard::WriteGuard;
use crate::hint::answers_absent;
use crate::index::key_hash;
use crate::index::shard_index;

verus! {

/// One shard: the locked bucket and the count of entries that were added to it.
struct Shard<K: Eq, V> {
    bucket: RwLock<Bucket<K, V>, AnyBucket>,
    occupancy: AtomicUsize,
}

/// A hash map over a fixed number of independently locked shards.
pub struct ConcurrentFixedHashMap<K: Hash + Eq, V> {
    buckets: Vec<Shard<K, V>>,
}

impl<K: Hash + Eq, V> ConcurrentFixedHashMap<K, V> {
    #[verifier::type_invariant]
    spec fn well_formed(self) -> bool {
        self.buckets@.len() > 0
    }

    /// The number of shards.
    pub closed spec fn spec_shard_count(&self) -> nat {
        self.buckets@.len()
    }

    /// A map of `size` shards.
    pub fn with_size(size: usize) -> (map: ConcurrentFixedHashMap<K, V>)
        requires
            size > 0,
            obeys_concrete_eq::<K>(),
        ensures
            map.spec_shard_count() == size,
    {
        let mut buckets: Vec<Shard<K, V>> = Vec::with_capacity(size);
        let mut made: usize = 0;
        while made < size
            invariant
                made <= size,
                buckets@.len() == made,
                obeys_concrete_eq::<K>(),
            decreases size - made,
        {
            buckets.push(
                Shard {
                    bucket: RwLock::new(Bucket::new(), Ghost(AnyBucket)),
                    occupancy: AtomicUsize::new(0),
                },
            );
            made += 1;
        }
        ConcurrentFixedHashMap { buckets }
    }

    /// The number of shards.
    pub fn shard_count(&self) -> (count: usize)
        ensures
            count == self.spec_shard_count(),
            count > 0,
    {
        proof {
            use_type_invariant(self);
        }
        self.buckets.len()
    }

    /// The index of the shard that holds `k`, if any shard does.
    pub fn shard_for<Q: Hash + ?Sized>(&self, k: &Q) -> (index: usize)
        ensures
            index < self.spec_shard_count(),
    {
        proof {
            use_type_invariant(self);
        }
        shard_index(key_hash(k), self.buckets.len())
    }

    /// The occupancy count of the shard at `index`, as it reads now.
    pub fn shard_occupancy(&self, index: usize) -> usize
        requires
            index < self.spec_shard_count(),
    {
        self.buckets[index].occupancy.load(Ordering::Acquire)
    }

    /// Looks `k` up and hands out shared access to its value. A shard whose
    /// occupancy reads zero is answered without its lock; else the shard is
    /// read-locked and scanned, and unlocked again where no key matches.
    pub fn get<Q: ?Sized>(&self, k: &Q) -> (found: Option<ReadGuard<'_, K, V>>) where
        K: Borrow<Q>,
        Q: Hash + PartialEq<K>,

        ensures
            found matches Some(guard) ==> {
                &&& distinct_keys(guard.entries())
                &&& Q::obeys_eq_spec() ==> first_match(guard.entries(), k, guard.slot())
            },
    {
        let index = self.shard_for(k);
        if answers_absent(self.shard_occupancy(index)) {
            None
        } else {
            ReadGuard::find(self.buckets[index].bucket.acquire_read(), k)
        }
    }

    /// Looks `k` up and hands out exclusive access to its value. A shard whose
    /// occupancy reads zero is answered without its lock; else the shard is
    /// write-locked and scanned, and unlocked again where no key matches.
    pub fn get_mut<Q: ?Sized>(&self, k: &Q) -> (found: Option<WriteGuard<'_, K, V>>) where
        K: Borrow<Q>,
        Q: Hash + PartialEq<K>,

        ensures
            found matches Some(guard) ==> {
                &&& distinct_keys(guard.entries())
                &&& Q::obeys_eq_spec() ==> first_match(guard.entries(), k, guard.slot())
            },
    {
        let index = self.shard_for(k);
        if answers_absent(self.shard_occupancy(index)) {
            None
        } else {
            let (bucket, lock) = self.buckets[index].bucket.acquire_write();
            WriteGuard::find(lock, bucket, k)
        }
    }

    /// Stores `value` under `k` in the key's shard, under its write lock, and
    /// hands back the value that was stored under `k` before, if any. The
    /// shard's occupancy is raised by one where the key was new.
    pub fn insert(&self, k: K, value: V) -> (displaced: Option<V>) {
        let index = self.shard_for(&k);
        let (mut bucket, lock) = self.buckets[index].bucket.acquire_write();
        let displaced = bucket.insert(k, value);
        if displaced.is_none() {
            self.buckets[index].occupancy.fetch_add(1, Ordering::Release);
        }
        lock.release_write(bucket);
        displaced
    }

    /// Stores `value` under `k` in the key's shard, under its write lock,
    /// unless the key is present: then the map stays as it is and both
    /// arguments are dropped. The shard's occupancy is raised by one where an
    /// entry was added.
    pub fn insert_new(&self, k: K, value: V) {
        let index = self.shard_for(&k);
        let (mut bucket, lock) = self.buckets[index].bucket.acquire_write();
        if bucket.insert_new(k, value) {
            self.buckets[index].occupancy.fetch_add(1, Ordering::Release);
        }
        lock.release_write(bucket);
    }

    /// Whether some entry's key equals `k`. A shard whose occupancy reads zero
    /// is answered without its lock; any other count leads to a scan under
    /// the read lock.
    pub fn contains_key<Q: ?Sized>(&self, k: &Q) -> (present: bool) where
        K: Borrow<Q>,
        Q: Hash + PartialEq<K>,
    {
        let index = self.shard_for(k);
        if answers_absent(self.shard_occupancy(index)) {
            false
        } else {
            let locked = self.buckets[index].bucket.acquire_read();
            let present = locked.borrow().contains_key(k);
            locked.release_read();
            present
        }
    }
}

} // verus!
