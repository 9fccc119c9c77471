//! From a key to its shard: a 64-bit hash of the key, reduced modulo the
//! shard count.

use vstd::prelude::*;
use std::collections::hash_map::DefaultHasher;
use std::hash::Hash;
use std::hash::Hasher;

verus! {

/// The shard that a hash selects among `shard_count` shards.
pub open spec fn shard_of(hash: u64, shard_count: nat) -> nat {
    (hash as nat) % shard_count
}

/// Reduces `hash` to a shard index. The index depends on nothing but the two
/// arguments, so equal hashes always select the same shard.
pub fn shard_index(hash: u64, shard_count: usize) -> (index: usize)
    requires
        shard_count > 0,
    ensures
        index == shard_of(hash, shard_count as nat),
        index < shard_count,
{
    (hash % (shard_count as u64)) as usize
}

/// Feeds `key` to `hasher` through the key's own `Hash::hash`. What a key
/// writes is up to its implementation, so nothing is claimed of the hasher
/// afterwards.
#[verifier::external_body]
fn feed<Q: Hash + ?Sized>(key: &Q, hasher: &mut DefaultHasher) {
    key.hash(hasher);
}

/// The 64-bit hash of `key`: a fresh default hasher, fed the key, finished.
pub fn key_hash<Q: Hash + ?Sized>(key: &Q) -> u64 {
    let mut hasher = DefaultHasher::new();
    feed(key, &mut hasher);
    hasher.finish()
}

} // verus!
