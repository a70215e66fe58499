//! The sharding layer: a row of independent `ClockMap` stores, with every
//! key routed to exactly one of them by a deterministic hash. No key ever
//! migrates between shards, and no operation touches more than one shard.

use crate::clock_map::ClockMap;
use std::collections::hash_map::DefaultHasher;
use std::hash::Hasher;
use vstd::prelude::*;
use vstd::std_specs::hash::DefaultHasherAdditionalSpecFns;

verus! {

/// The little-endian bytes of a key, as they are fed to the hasher.
pub open spec fn key_bytes(key: u64) -> Seq<u8> {
    seq![
        (key & 0xff) as u8,
        ((key >> 8) & 0xff) as u8,
        ((key >> 16) & 0xff) as u8,
        ((key >> 24) & 0xff) as u8,
        ((key >> 32) & 0xff) as u8,
        ((key >> 40) & 0xff) as u8,
        ((key >> 48) & 0xff) as u8,
        ((key >> 56) & 0xff) as u8,
    ]
}

/// The hash of a key: the digest `DefaultHasher` produces from the key's
/// bytes. `DefaultHasher` always starts from the same fixed state, so this
/// is a pure function of the key.
pub open spec fn hash_of(key: u64) -> u64 {
    DefaultHasher::spec_finish(seq![key_bytes(key)])
}

/// Hashes a key by feeding its bytes to a fresh `DefaultHasher`.
fn hash_key(key: u64) -> (r: u64)
    ensures
        r == hash_of(key),
{
    let mut hasher = DefaultHasher::new();
    let bytes: [u8; 8] = [
        (key & 0xff) as u8,
        ((key >> 8) & 0xff) as u8,
        ((key >> 16) & 0xff) as u8,
        ((key >> 24) & 0xff) as u8,
        ((key >> 32) & 0xff) as u8,
        ((key >> 40) & 0xff) as u8,
        ((key >> 48) & 0xff) as u8,
        ((key >> 56) & 0xff) as u8,
    ];
    hasher.write(bytes.as_slice());
    proof {
        assert(bytes@ =~= key_bytes(key));
        assert(hasher@ =~= seq![key_bytes(key)]);
    }
    hasher.finish()
}

/// A concurrency-sharded cache: a fixed row of `ClockMap` stores. Each key
/// belongs to one shard for its whole lifetime, chosen by its hash alone.
pub struct ClockDashMap {
    pub shards: Vec<ClockMap>,
}

impl ClockDashMap {
    /// Well-formedness: at least one shard, and every shard well formed.
    pub open spec fn wf(self) -> bool {
        &&& self.shards@.len() >= 1
        &&& forall|i: int| 0 <= i < self.shards@.len() ==> (#[trigger] self.shards@[i]).wf()
    }

    /// The shard a key belongs to: a pure function of the key's hash and the
    /// fixed shard count, so a key's home never moves.
    pub open spec fn spec_shard_of(self, key: u64) -> int {
        hash_of(key) as int % self.shards@.len() as int
    }

    /// Builds `num_shards` empty stores, splitting `cap` slots as evenly as
    /// possible; the remainder goes to the last shard.
    pub fn new(cap: usize, num_shards: usize) -> (r: ClockDashMap)
        requires
            num_shards >= 1,
        ensures
            r.wf(),
            r.shards@.len() == num_shards,
            forall|i: int|
                0 <= i < num_shards ==> (#[trigger] r.shards@[i]).capacity == cap as int
                    / num_shards as int + (if i == num_shards - 1 {
                    cap as int % num_shards as int
                } else {
                    0
                }),
            forall|i: int|
                0 <= i < num_shards ==> (#[trigger] r.shards@[i]).miss == 0 && r.shards@[i].pointer
                    == 0 && r.shards@[i].value_map@ == Map::<
                    u64,
                    crate::clock_map::MapEntry,
                >::empty(),
    {
        let base = cap / num_shards;
        let rem = cap % num_shards;
        proof {
            assert(base + rem <= cap) by (nonlinear_arith)
                requires
                    base == cap as int / num_shards as int,
                    rem == cap as int % num_shards as int,
                    num_shards >= 1,
                    cap >= 0,
            ;
        }
        let mut shards: Vec<ClockMap> = Vec::new();
        let mut i: usize = 0;
        while i < num_shards
            invariant
                i <= num_shards,
                num_shards >= 1,
                base == cap as int / num_shards as int,
                rem == cap as int % num_shards as int,
                base + rem <= cap,
                shards@.len() == i,
                forall|s: int|
                    0 <= s < i ==> (#[trigger] shards@[s]).capacity == base as int + (if s
                        == num_shards - 1 {
                        rem as int
                    } else {
                        0
                    }),
                forall|s: int|
                    0 <= s < i ==> (#[trigger] shards@[s]).wf() && shards@[s].miss == 0
                        && shards@[s].pointer == 0 && shards@[s].value_map@ == Map::<
                        u64,
                        crate::clock_map::MapEntry,
                    >::empty(),
            decreases num_shards - i,
        {
            let this_cap = if i == num_shards - 1 {
                base + rem
            } else {
                base
            };
            shards.push(ClockMap::new(this_cap));
            i = i + 1;
        }
        ClockDashMap { shards }
    }

    /// Routes a key to its shard's index: the key's hash, reduced modulo the
    /// shard count.
    pub fn get_shard(&self, key: &u64) -> (r: usize)
        requires
            self.wf(),
        ensures
            r == self.spec_shard_of(*key),
            r < self.shards@.len(),
    {
        let h = hash_key(*key);
        let n = self.shards.len();
        (h % (n as u64)) as usize
    }

    /// The full effect of `insert`: the shard count stands, no shard but the
    /// key's own is touched, and the key's shard took the pair as a lone
    /// `ClockMap` would.
    pub open spec fn insert_post(pre: ClockDashMap, post: ClockDashMap, key: u64, val: u64) -> bool {
        &&& post.shards@.len() == pre.shards@.len()
        &&& forall|i: int|
            0 <= i < pre.shards@.len() && i != pre.spec_shard_of(key) ==> post.shards@[i]
                == pre.shards@[i]
        &&& ClockMap::insert_post(
            pre.shards@[pre.spec_shard_of(key)],
            post.shards@[pre.spec_shard_of(key)],
            key,
            val,
        )
    }

    /// The full effect of `read`: the shard count stands, no shard but the
    /// key's own is touched, and the key's shard answered as a lone
    /// `ClockMap` would.
    pub open spec fn read_post(pre: ClockDashMap, post: ClockDashMap, key: u64) -> bool {
        &&& post.shards@.len() == pre.shards@.len()
        &&& forall|i: int|
            0 <= i < pre.shards@.len() && i != pre.spec_shard_of(key) ==> post.shards@[i]
                == pre.shards@[i]
        &&& ClockMap::read_post(
            pre.shards@[pre.spec_shard_of(key)],
            post.shards@[pre.spec_shard_of(key)],
            key,
        )
    }

    /// Upserts a key/value pair into the key's shard; no other shard is
    /// touched.
    pub fn insert(&mut self, key: u64, val: u64)
        requires
            old(self).wf(),
        ensures
            final(self).wf(),
            ClockDashMap::insert_post(*old(self), *final(self), key, val),
    {
        let idx = self.get_shard(&key);
        self.shards[idx].insert(key, val);
    }

    /// Looks a key up in its shard; no other shard is touched.
    pub fn read(&mut self, key: &u64) -> (r: Option<u64>)
        requires
            old(self).wf(),
        ensures
            final(self).wf(),
            r == old(self).shards@[old(self).spec_shard_of(*key)].read_result(*key),
            ClockDashMap::read_post(*old(self), *final(self), *key),
    {
        let idx = self.get_shard(key);
        self.shards[idx].read(key)
    }
}

} // verus!
