//! Laws of the cache, stated and proved over the contracts of `ClockMap` and
//! `ClockDashMap`: how the miss counter may move, how far a sweep can go,
//! that a key's shard never changes, and that re-inserting a held pair is
//! harmless.

use crate::clock_map::ClockMap;
use crate::dash_map::ClockDashMap;
use vstd::prelude::*;

verus! {

/// Index/slot consistency: in a well-formed store — and `new`, `read` and
/// `insert` all return one, so this holds after any sequence of operations —
/// the slot recorded for every indexed key holds exactly that key.
pub proof fn lemma_index_slot_consistency(m: ClockMap, k: u64)
    requires
        m.wf(),
        m.value_map@.contains_key(k),
    ensures
        (m.value_map@[k].index as int) < m.clock_list@.len(),
        m.clock_list@[m.value_map@[k].index as int].is_some(),
        m.clock_list@[m.value_map@[k].index as int].unwrap().key == k,
{
}

/// Bounded miss growth: one `insert` raises the miss counter by at most one,
/// and only on a cold insert — an update of a present key never moves it, and
/// neither does any insert on a zero-capacity store. A cold insert on a
/// store with capacity raises it by exactly one (up to the counter's
/// saturation point).
pub proof fn lemma_bounded_miss_growth(pre: ClockMap, post: ClockMap, key: u64, value: u64)
    requires
        pre.wf(),
        ClockMap::insert_post(pre, post, key, value),
    ensures
        pre.miss <= post.miss,
        post.miss <= ClockMap::bump(pre.miss),
        pre.value_map@.contains_key(key) ==> post.miss == pre.miss,
        !pre.value_map@.contains_key(key) && pre.capacity > 0 ==> post.miss == ClockMap::bump(
            pre.miss,
        ),
        !pre.value_map@.contains_key(key) && pre.capacity > 0 && pre.miss < u64::MAX ==> post.miss
            == pre.miss + 1,
        pre.capacity == 0 ==> post.miss == pre.miss,
{
    if !pre.value_map@.contains_key(key) && pre.capacity > 0 {
        if exists|j: int| ClockMap::sweep_finds(pre.clock_list@, pre.pointer as int, j) {
            let j = choose|j: int| ClockMap::sweep_finds(pre.clock_list@, pre.pointer as int, j);
            assert(ClockMap::placed_post(pre, post, key, value, j));
        } else {
            assert(ClockMap::full_lap_post(pre, post, key, value));
        }
    }
}

/// Every put that a store with capacity can honor is honored: after `insert`,
/// the key is present with the inserted value, so a `read` with no operation
/// in between returns exactly that value. Only the zero-capacity store drops
/// the pair.
pub proof fn lemma_put_then_get_returns_value(pre: ClockMap, post: ClockMap, key: u64, value: u64)
    requires
        pre.wf(),
        pre.capacity > 0,
        ClockMap::insert_post(pre, post, key, value),
    ensures
        post.value_map@.contains_key(key),
        post.value_map@[key].value == value,
        post.read_result(key) == Some(value),
{
    if !pre.value_map@.contains_key(key) {
        if exists|j: int| ClockMap::sweep_finds(pre.clock_list@, pre.pointer as int, j) {
            let j = choose|j: int| ClockMap::sweep_finds(pre.clock_list@, pre.pointer as int, j);
            assert(ClockMap::placed_post(pre, post, key, value, j));
        } else {
            assert(ClockMap::full_lap_post(pre, post, key, value));
        }
    }
}

/// A lookup never moves the miss counter, the hand, or any index record.
pub proof fn lemma_read_changes_nothing_counted(pre: ClockMap, post: ClockMap, key: u64)
    requires
        ClockMap::read_post(pre, post, key),
    ensures
        post.miss == pre.miss,
        post.pointer == pre.pointer,
        post.value_map@ == pre.value_map@,
{
}

/// Sweep termination, one half: a step the sweep can settle on lies within
/// the first lap, so a cold insert examines at most `capacity` slots.
pub proof fn lemma_sweep_within_one_lap(slots: Seq<Option<crate::clock_map::Entry>>, hand: int, j: int)
    requires
        ClockMap::sweep_finds(slots, hand, j),
    ensures
        0 <= j < slots.len(),
{
}

/// Sweep termination, the other half: the settling step is unique, so the
/// sweep's outcome is a function of the slots and the hand alone.
pub proof fn lemma_sweep_step_unique(
    slots: Seq<Option<crate::clock_map::Entry>>,
    hand: int,
    j1: int,
    j2: int,
)
    requires
        ClockMap::sweep_finds(slots, hand, j1),
        ClockMap::sweep_finds(slots, hand, j2),
    ensures
        j1 == j2,
{
    let cap = slots.len() as int;
    if j1 < j2 {
        assert(!ClockMap::takes_slot(slots[ClockMap::sweep_pos(hand, j1, cap)]));
    } else if j2 < j1 {
        assert(!ClockMap::takes_slot(slots[ClockMap::sweep_pos(hand, j2, cap)]));
    }
}

/// Key stability: the shard a key routes to depends only on the key's hash
/// and the shard count, so any number of operations on other keys — which
/// never change the shard count — leave the assignment as it was.
pub proof fn lemma_shard_assignment_stable(before: ClockDashMap, after: ClockDashMap, key: u64)
    requires
        before.shards@.len() == after.shards@.len(),
    ensures
        before.spec_shard_of(key) == after.spec_shard_of(key),
{
}

/// Shard independence: two inserts whose keys live in different shards do
/// not interfere — after both, each key's shard is exactly as if its insert
/// had run alone on the starting cache, whichever order the two ran in.
pub proof fn lemma_puts_to_different_shards_are_independent(
    c0: ClockDashMap,
    c1: ClockDashMap,
    c2: ClockDashMap,
    key_a: u64,
    val_a: u64,
    key_b: u64,
    val_b: u64,
)
    requires
        c0.wf(),
        ClockDashMap::insert_post(c0, c1, key_a, val_a),
        ClockDashMap::insert_post(c1, c2, key_b, val_b),
        c0.spec_shard_of(key_a) != c0.spec_shard_of(key_b),
    ensures
        ClockMap::insert_post(
            c0.shards@[c0.spec_shard_of(key_a)],
            c2.shards@[c0.spec_shard_of(key_a)],
            key_a,
            val_a,
        ),
        ClockMap::insert_post(
            c0.shards@[c0.spec_shard_of(key_b)],
            c2.shards@[c0.spec_shard_of(key_b)],
            key_b,
            val_b,
        ),
{
    lemma_shard_assignment_stable(c0, c1, key_b);
    lemma_shard_assignment_stable(c0, c1, key_a);
    assert(0 <= c0.spec_shard_of(key_a) < c0.shards@.len()) by {
        vstd::arithmetic::div_mod::lemma_mod_bound(
            crate::dash_map::hash_of(key_a) as int,
            c0.shards@.len() as int,
        );
    }
    assert(0 <= c0.spec_shard_of(key_b) < c0.shards@.len()) by {
        vstd::arithmetic::div_mod::lemma_mod_bound(
            crate::dash_map::hash_of(key_b) as int,
            c0.shards@.len() as int,
        );
    }
    assert(c2.shards@[c0.spec_shard_of(key_a)] == c1.shards@[c0.spec_shard_of(key_a)]);
    assert(c1.shards@[c0.spec_shard_of(key_b)] == c0.shards@[c0.spec_shard_of(key_b)]);
}

/// Inserting a pair whose key the store already holds updates that key alone:
/// the miss counter stands still, no key appears or disappears, and every
/// other key's record is untouched.
pub proof fn lemma_reinsert_present(pre: ClockMap, post: ClockMap, key: u64, value: u64)
    requires
        pre.wf(),
        pre.value_map@.contains_key(key),
        ClockMap::insert_post(pre, post, key, value),
    ensures
        post.miss == pre.miss,
        post.capacity == pre.capacity,
        forall|k: u64|
            #[trigger] post.value_map@.contains_key(k) <==> pre.value_map@.contains_key(k),
        forall|k: u64|
            k != key && #[trigger] pre.value_map@.contains_key(k) ==> post.value_map@[k]
                == pre.value_map@[k],
        post.value_map@[key].value == value,
{
}

/// Idempotent re-insert: inserting the same key/value pair twice in a row
/// leaves the second insert with nothing to do — the miss counter stands
/// still and no other key is evicted. On a store with capacity the first
/// insert always places the pair, so the second is a hit; on a zero-capacity
/// store both inserts change nothing at all.
pub proof fn lemma_idempotent_reinsert(
    s0: ClockMap,
    s1: ClockMap,
    s2: ClockMap,
    key: u64,
    value: u64,
)
    requires
        s0.wf(),
        s1.wf(),
        ClockMap::insert_post(s0, s1, key, value),
        ClockMap::insert_post(s1, s2, key, value),
    ensures
        s2.miss == s1.miss,
        forall|k: u64|
            #[trigger] s2.value_map@.contains_key(k) <==> s1.value_map@.contains_key(k),
        forall|k: u64|
            k != key && #[trigger] s1.value_map@.contains_key(k) ==> s2.value_map@[k]
                == s1.value_map@[k],
{
    if s0.capacity == 0 && !s0.value_map@.contains_key(key) {
        assert(ClockMap::unchanged(s0, s1));
        assert(!s1.value_map@.contains_key(key));
        assert(s1.capacity == 0);
        assert(ClockMap::unchanged(s1, s2));
    } else {
        if !s0.value_map@.contains_key(key) {
            lemma_put_then_get_returns_value(s0, s1, key, value);
        }
        assert(s1.value_map@.contains_key(key));
        lemma_reinsert_present(s1, s2, key, value);
    }
}

} // verus!

