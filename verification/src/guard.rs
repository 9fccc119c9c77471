//! Accessors handed out by lookups. A guard keeps its shard locked and
//! points at one entry of the locked bucket; the value of that entry is
//! reached by dereferencing the guard. The lock is held until `release` is
//! called: a guard that is merely dropped leaves its shard locked.

use vstd::prelude::*;
use vstd::rwlock::ReadHandle;
use vstd::rwlock::RwLockPredicate;
use vstd::rwlock::WriteHandle;
use vstd::std_specs::cmp::PartialEqSpec;
use crate::bucket::distinct_keys;
use crate::bucket::first_match;
use crate::bucket::no_match;
use crate::bucket::Bucket;

verus! {

/// The predicate of a shard's lock. It admits every bucket: what has to hold
/// of a bucket is the bucket's own invariant.
pub struct AnyBucket;

impl<K: Eq, V> RwLockPredicate<Bucket<K, V>> for AnyBucket {
    open spec fn inv(self, v: Bucket<K, V>) -> bool {
        true
    }
}

/// Shared access to one entry's value, for as long as the guard lives.
pub struct ReadGuard<'a, K: Eq, V> {
    locked_bucket: ReadHandle<'a, Bucket<K, V>, AnyBucket>,
    index: usize,
}

impl<'a, K: Eq, V> ReadGuard<'a, K, V> {
    #[verifier::type_invariant]
    spec fn well_formed(self) -> bool {
        self.index < self.locked_bucket.view()@.len()
    }

    /// The entries of the locked bucket.
    pub closed spec fn entries(self) -> Seq<(K, V)> {
        self.locked_bucket.view()@
    }

    /// The position of the guarded entry in the locked bucket.
    pub closed spec fn slot(self) -> int {
        self.index as int
    }

    /// The key of the guarded entry.
    pub open spec fn key(self) -> K {
        self.entries()[self.slot()].0
    }

    /// The value of the guarded entry.
    pub open spec fn view(self) -> V {
        self.entries()[self.slot()].1
    }

    /// A guard for the entry at `index` of the bucket that `locked_bucket` holds.
    pub(crate) fn new(locked_bucket: ReadHandle<'a, Bucket<K, V>, AnyBucket>, index: usize) -> (guard:
        Self)
        requires
            index < locked_bucket.view()@.len(),
        ensures
            guard.entries() == locked_bucket.view()@,
            guard.slot() == index,
    {
        ReadGuard { locked_bucket, index }
    }

    /// Scans the bucket that `locked_bucket` holds for `k`. Where `k` equals a
    /// key, the result is a guard for the first such entry, and the lock stays
    /// held by it; where it equals none, the lock is released.
    pub fn find<Q: PartialEq<K> + ?Sized>(
        locked_bucket: ReadHandle<'a, Bucket<K, V>, AnyBucket>,
        k: &Q,
    ) -> (found: Option<Self>)
        ensures
            distinct_keys(locked_bucket.view()@),
            found matches Some(guard) ==> guard.entries() == locked_bucket.view()@,
            Q::obeys_eq_spec() ==> match found {
                Some(guard) => first_match(locked_bucket.view()@, k, guard.slot()),
                None => no_match(locked_bucket.view()@, k),
            },
    {
        match locked_bucket.borrow().position(k) {
            Some(i) => Some(ReadGuard::new(locked_bucket, i)),
            None => {
                locked_bucket.release_read();
                None
            },
        }
    }

    /// Gives up the access and unlocks the shard for writers.
    pub fn release(self) {
        self.locked_bucket.release_read();
    }
}

impl<'a, K: Eq, V> std::ops::Deref for ReadGuard<'a, K, V> {
    type Target = V;

    fn deref(&self) -> (value: &V)
        ensures
            *value == self@,
    {
        proof {
            use_type_invariant(self);
        }
        self.locked_bucket.borrow().value_at(self.index)
    }
}

/// Exclusive access to one entry's value, for as long as the guard lives.
/// The guard holds the bucket itself, taken out of the lock, and puts it back
/// on `release`.
pub struct WriteGuard<'a, K: Eq, V> {
    lock: WriteHandle<'a, Bucket<K, V>, AnyBucket>,
    locked_bucket: Bucket<K, V>,
    index: usize,
}

impl<'a, K: Eq, V> WriteGuard<'a, K, V> {
    #[verifier::type_invariant]
    spec fn well_formed(self) -> bool {
        self.index < self.locked_bucket@.len()
    }

    /// The entries of the locked bucket.
    pub closed spec fn entries(self) -> Seq<(K, V)> {
        self.locked_bucket@
    }

    /// The position of the guarded entry in the locked bucket.
    pub closed spec fn slot(self) -> int {
        self.index as int
    }

    /// The key of the guarded entry.
    pub open spec fn key(self) -> K {
        self.entries()[self.slot()].0
    }

    /// The value of the guarded entry.
    pub open spec fn view(self) -> V {
        self.entries()[self.slot()].1
    }

    /// A guard for the entry at `index` of `locked_bucket`, which was taken
    /// out of the lock that `lock` holds.
    pub(crate) fn new(
        lock: WriteHandle<'a, Bucket<K, V>, AnyBucket>,
        locked_bucket: Bucket<K, V>,
        index: usize,
    ) -> (guard: Self)
        requires
            index < locked_bucket@.len(),
        ensures
            guard.entries() == locked_bucket@,
            guard.slot() == index,
    {
        WriteGuard { lock, locked_bucket, index }
    }

    /// Scans `locked_bucket`, which was taken out of the lock that `lock`
    /// holds, for `k`. Where `k` equals a key, the result is a guard for the
    /// first such entry, and the lock stays held by it; where it equals none,
    /// the bucket is put back as it is and the lock released.
    pub fn find<Q: PartialEq<K> + ?Sized>(
        lock: WriteHandle<'a, Bucket<K, V>, AnyBucket>,
        locked_bucket: Bucket<K, V>,
        k: &Q,
    ) -> (found: Option<Self>)
        ensures
            distinct_keys(locked_bucket@),
            found matches Some(guard) ==> guard.entries() == locked_bucket@,
            Q::obeys_eq_spec() ==> match found {
                Some(guard) => first_match(locked_bucket@, k, guard.slot()),
                None => no_match(locked_bucket@, k),
            },
    {
        match locked_bucket.position(k) {
            Some(i) => Some(WriteGuard::new(lock, locked_bucket, i)),
            None => {
                lock.release_write(locked_bucket);
                None
            },
        }
    }

    /// Puts the bucket back, with whatever was written to the guarded value,
    /// and unlocks the shard.
    pub fn release(self) {
        let WriteGuard { lock, locked_bucket, index: _ } = self;
        lock.release_write(locked_bucket);
    }
}

impl<'a, K: Eq, V> std::ops::Deref for WriteGuard<'a, K, V> {
    type Target = V;

    fn deref(&self) -> (value: &V)
        ensures
            *value == self@,
    {
        proof {
            use_type_invariant(self);
        }
        self.locked_bucket.value_at(self.index)
    }
}

impl<'a, K: Eq, V> std::ops::DerefMut for WriteGuard<'a, K, V> {
    fn deref_mut(&mut self) -> (value: &mut V)
        ensures
            *value == old(self)@,
            final(self).slot() == old(self).slot(),
            final(self).entries() == old(self).entries().update(
                old(self).slot(),
                (old(self).key(), *final(value)),
            ),
    {
        proof {
            use_type_invariant(&*self);
        }
        self.locked_bucket.value_at_mut(self.index)
    }
}

} // verus!
