//! The single-shard CLOCK (second-chance) eviction engine: a fixed-length
//! circular array of slots paired with a hash index from key to slot
//! position. The index holds only integer positions, never references into
//! the array, so the two structures are linked purely by bookkeeping.

use std::collections::HashMap;
use vstd::prelude::*;

verus! {

broadcast use vstd::std_specs::hash::group_hash_axioms;

/// One slot of the circular array: the owning key plus the recency bit that
/// grants the occupant one more lap before eviction.
#[derive(Clone, Copy)]
pub struct Entry {
    pub second_chance: bool,
    pub key: u64,
}

/// The per-key record held in the hash index: the cached value and the
/// position of the key's slot in the circular array.
#[derive(Clone, Copy)]
pub struct MapEntry {
    pub value: u64,
    pub index: usize,
}

/// A single-threaded, fixed-capacity associative store with CLOCK eviction.
///
/// `capacity` is fixed at construction; a capacity of zero is legal but the
/// store then accepts and silently drops every insert.
pub struct ClockMap {
    pub value_map: HashMap<u64, MapEntry>,
    pub clock_list: Vec<Option<Entry>>,
    pub pointer: usize,
    pub miss: u64,
    pub capacity: usize,
}

impl ClockMap {
    /// Every key in the index points at a slot that holds exactly that key.
    pub open spec fn index_slot_consistent(self) -> bool {
        forall|k: u64| #[trigger] self.value_map@.contains_key(k) ==> {
            &&& (self.value_map@[k].index as int) < self.clock_list@.len()
            &&& self.clock_list@[self.value_map@[k].index as int].is_some()
            &&& self.clock_list@[self.value_map@[k].index as int].unwrap().key == k
        }
    }

    /// Every occupied slot is claimed by its own key's index record.
    pub open spec fn slot_index_consistent(self) -> bool {
        forall|p: int|
            0 <= p < self.clock_list@.len() && (#[trigger] self.clock_list@[p]).is_some() ==> {
                &&& self.value_map@.contains_key(self.clock_list@[p].unwrap().key)
                &&& self.value_map@[self.clock_list@[p].unwrap().key].index == p
            }
    }

    /// Well-formedness: the slot array has exactly `capacity` slots, the
    /// sweep hand rests inside it, and the index and the slots agree in both
    /// directions.
    pub open spec fn wf(self) -> bool {
        &&& self.clock_list@.len() == self.capacity
        &&& (self.capacity > 0 ==> self.pointer < self.capacity)
        &&& (self.capacity == 0 ==> self.pointer == 0)
        &&& self.index_slot_consistent()
        &&& self.slot_index_consistent()
    }

    /// Builds an empty store of the given fixed capacity.
    pub fn new(cap: usize) -> (r: ClockMap)
        ensures
            r.wf(),
            r.capacity == cap,
            r.pointer == 0,
            r.miss == 0,
            r.value_map@ == Map::<u64, MapEntry>::empty(),
            r.clock_list@.len() == cap,
            forall|p: int| 0 <= p < cap ==> (#[trigger] r.clock_list@[p]).is_none(),
    {
        let mut clock_list: Vec<Option<Entry>> = Vec::new();
        while clock_list.len() < cap
            invariant
                clock_list@.len() <= cap,
                forall|p: int| 0 <= p < clock_list@.len() ==> (#[trigger] clock_list@[p]).is_none(),
            decreases cap - clock_list.len(),
        {
            clock_list.push(None);
        }
        ClockMap { value_map: HashMap::new(), clock_list, pointer: 0, miss: 0, capacity: cap }
    }

    /// What `read` returns: the stored value for a present key, absent
    /// otherwise.
    pub open spec fn read_result(self, key: u64) -> Option<u64> {
        if self.value_map@.contains_key(key) {
            Some(self.value_map@[key].value)
        } else {
            None
        }
    }

    /// How `read` changes the store: nothing, except that a present key's
    /// slot is granted a second chance.
    pub open spec fn read_post(pre: ClockMap, post: ClockMap, key: u64) -> bool {
        &&& post.value_map@ == pre.value_map@
        &&& post.pointer == pre.pointer
        &&& post.miss == pre.miss
        &&& post.capacity == pre.capacity
        &&& post.clock_list@ == if pre.value_map@.contains_key(key) {
            pre.clock_list@.update(
                pre.value_map@[key].index as int,
                Some(Entry { second_chance: true, key }),
            )
        } else {
            pre.clock_list@
        }
    }

    /// Looks a key up. A hit returns a copy of the stored value and marks the
    /// key's slot recently used; a lookup never evicts, never moves the hand
    /// and never counts a miss.
    pub fn read(&mut self, key: &u64) -> (r: Option<u64>)
        requires
            old(self).wf(),
        ensures
            final(self).wf(),
            r == old(self).read_result(*key),
            ClockMap::read_post(*old(self), *final(self), *key),
    {
        if self.value_map.contains_key(key) {
            let idx = self.value_map.get(key).unwrap().index;
            self.clock_list[idx] = Some(Entry { second_chance: true, key: *key });
            let v = self.value_map.get(key).unwrap().value;
            proof {
                assert(self.clock_list@ =~= old(self).clock_list@.update(
                    old(self).value_map@[*key].index as int,
                    Some(Entry { second_chance: true, key: *key }),
                ));
            }
            Some(v)
        } else {
            None
        }
    }

    /// The miss counter after one more cold insert is placed; it sticks at
    /// its maximum rather than wrap.
    pub open spec fn bump(m: u64) -> u64 {
        if m == u64::MAX {
            m
        } else {
            (m + 1) as u64
        }
    }

    /// The slot position the sweep examines at step `t` when starting from
    /// `hand`: positions advance one by one and wrap at `cap`.
    pub open spec fn sweep_pos(hand: int, t: int, cap: int) -> int {
        if hand + t < cap {
            hand + t
        } else {
            hand + t - cap
        }
    }

    /// A slot the sweep may place into: empty, or occupied without a second
    /// chance.
    pub open spec fn takes_slot(s: Option<Entry>) -> bool {
        match s {
            None => true,
            Some(e) => !e.second_chance,
        }
    }

    /// The sweep starting at `hand` settles at step `j`: the slot examined at
    /// step `j` can take the key, and every slot examined before it could not.
    pub open spec fn sweep_finds(slots: Seq<Option<Entry>>, hand: int, j: int) -> bool {
        let cap = slots.len() as int;
        &&& 0 <= j < cap
        &&& ClockMap::takes_slot(slots[ClockMap::sweep_pos(hand, j, cap)])
        &&& forall|t: int|
            0 <= t < j ==> !ClockMap::takes_slot(
                slots[#[trigger] ClockMap::sweep_pos(hand, t, cap)],
            )
    }

    /// Nothing about the store changed.
    pub open spec fn unchanged(pre: ClockMap, post: ClockMap) -> bool {
        &&& post.value_map@ == pre.value_map@
        &&& post.clock_list@ == pre.clock_list@
        &&& post.pointer == pre.pointer
        &&& post.miss == pre.miss
        &&& post.capacity == pre.capacity
    }

    /// An insert of a key already present: its value is overwritten in place
    /// and its slot is granted a second chance; nothing is swept or evicted,
    /// and neither the hand nor the miss counter moves.
    pub open spec fn hit_post(pre: ClockMap, post: ClockMap, key: u64, value: u64) -> bool {
        let i = pre.value_map@[key].index;
        &&& post.value_map@ == pre.value_map@.insert(key, MapEntry { value, index: i })
        &&& post.clock_list@ == pre.clock_list@.update(
            i as int,
            Some(Entry { second_chance: true, key }),
        )
        &&& post.pointer == pre.pointer
        &&& post.miss == pre.miss
        &&& post.capacity == pre.capacity
    }

    /// A cold insert whose sweep settled at step `j`: every slot passed over
    /// lost its second chance, the settled slot now holds the new key with no
    /// second chance (its previous occupant, if any, left the index), the
    /// hand rests one past the settled slot, and the miss counter grew by
    /// one. Slots the sweep never reached are untouched.
    pub open spec fn placed_post(
        pre: ClockMap,
        post: ClockMap,
        key: u64,
        value: u64,
        j: int,
    ) -> bool {
        let cap = pre.capacity as int;
        let hand = pre.pointer as int;
        let pos = ClockMap::sweep_pos(hand, j, cap);
        &&& post.capacity == pre.capacity
        &&& post.pointer == if pos + 1 < cap {
            pos + 1
        } else {
            0
        }
        &&& post.miss == ClockMap::bump(pre.miss)
        &&& post.clock_list@.len() == cap
        &&& post.clock_list@[pos] == Some(Entry { second_chance: false, key })
        &&& (forall|t: int|
            0 <= t < j ==> post.clock_list@[#[trigger] ClockMap::sweep_pos(hand, t, cap)] == Some(
                Entry {
                    second_chance: false,
                    key: pre.clock_list@[ClockMap::sweep_pos(hand, t, cap)].unwrap().key,
                },
            ))
        &&& (forall|t: int|
            j < t < cap ==> post.clock_list@[#[trigger] ClockMap::sweep_pos(hand, t, cap)]
                == pre.clock_list@[ClockMap::sweep_pos(hand, t, cap)])
        &&& post.value_map@ == (match pre.clock_list@[pos] {
            Some(e) => pre.value_map@.remove(e.key),
            None => pre.value_map@,
        }).insert(key, MapEntry { value, index: pos as usize })
    }

    /// A cold insert whose lap found every slot holding a second chance: the
    /// lap stripped them all, so the slot under the hand — examined first and
    /// cleared — takes the pair. Its occupant is evicted, the hand rests one
    /// past it, and the miss counter grows by one.
    pub open spec fn full_lap_post(pre: ClockMap, post: ClockMap, key: u64, value: u64) -> bool {
        let cap = pre.capacity as int;
        let hand = pre.pointer as int;
        &&& post.capacity == pre.capacity
        &&& post.pointer == if hand + 1 < cap {
            hand + 1
        } else {
            0
        }
        &&& post.miss == ClockMap::bump(pre.miss)
        &&& post.clock_list@.len() == cap
        &&& post.clock_list@[hand] == Some(Entry { second_chance: false, key })
        &&& (forall|p: int|
            0 <= p < cap && p != hand ==> #[trigger] post.clock_list@[p] == Some(
                Entry { second_chance: false, key: pre.clock_list@[p].unwrap().key },
            ))
        &&& post.value_map@ == pre.value_map@.remove(pre.clock_list@[hand].unwrap().key).insert(
            key,
            MapEntry { value, index: pre.pointer },
        )
    }

    /// A cold insert: one sweep of at most one lap decides where the pair
    /// lands — at the first slot that can take it, or, when the whole lap
    /// held second chances, at the hand once the lap has stripped them. On a
    /// zero-capacity store the sweep range is empty and nothing changes.
    pub open spec fn miss_post(pre: ClockMap, post: ClockMap, key: u64, value: u64) -> bool {
        if pre.capacity == 0 {
            ClockMap::unchanged(pre, post)
        } else {
            &&& (forall|j: int|
                ClockMap::sweep_finds(pre.clock_list@, pre.pointer as int, j)
                    ==> ClockMap::placed_post(pre, post, key, value, j))
            &&& ((forall|j: int|
                !ClockMap::sweep_finds(pre.clock_list@, pre.pointer as int, j))
                ==> ClockMap::full_lap_post(pre, post, key, value))
        }
    }

    /// The full effect of `insert`, split on whether the key was present.
    pub open spec fn insert_post(pre: ClockMap, post: ClockMap, key: u64, value: u64) -> bool {
        if pre.value_map@.contains_key(key) {
            ClockMap::hit_post(pre, post, key, value)
        } else {
            ClockMap::miss_post(pre, post, key, value)
        }
    }

    /// Upserts a key/value pair. A present key is updated in place (the hit
    /// path). A new key runs the sweep from the hand for at most one lap:
    /// an empty slot or one without a second chance takes the pair, a slot
    /// with a second chance loses it and is passed over, and the previous
    /// occupant of a taken slot is evicted from the index. When the whole
    /// lap held second chances it has stripped them all, and the slot under
    /// the hand takes the pair — so every insert places unless the capacity
    /// is zero.
    #[verifier::loop_isolation(false)]
    pub fn insert(&mut self, key: u64, value: u64)
        requires
            old(self).wf(),
        ensures
            final(self).wf(),
            ClockMap::insert_post(*old(self), *final(self), key, value),
    {
        if self.value_map.contains_key(&key) {
            let idx = self.value_map.get(&key).unwrap().index;
            self.clock_list[idx] = Some(Entry { second_chance: true, key });
            self.value_map.insert(key, MapEntry { value, index: idx });
            proof {
                assert(self.clock_list@ =~= old(self).clock_list@.update(
                    old(self).value_map@[key].index as int,
                    Some(Entry { second_chance: true, key }),
                ));
            }
        } else {
            let ghost pre = *old(self);
            let ghost hand = pre.pointer as int;
            let ghost capi = pre.capacity as int;
            let cap = self.capacity;
            let mut pos = self.pointer;
            let mut j: usize = 0;
            let mut found = false;
            while j < cap && !found
                invariant
                    j <= cap,
                    pos == ClockMap::sweep_pos(hand, j as int, capi),
                    self.capacity == pre.capacity,
                    self.pointer == pre.pointer,
                    self.miss == pre.miss,
                    self.value_map@ == pre.value_map@,
                    self.clock_list@.len() == capi,
                    forall|t: int|
                        0 <= t < j ==> !ClockMap::takes_slot(
                            pre.clock_list@[#[trigger] ClockMap::sweep_pos(hand, t, capi)],
                        ),
                    forall|t: int|
                        0 <= t < j ==> self.clock_list@[#[trigger] ClockMap::sweep_pos(
                            hand,
                            t,
                            capi,
                        )] == Some(
                            Entry {
                                second_chance: false,
                                key: pre.clock_list@[ClockMap::sweep_pos(hand, t, capi)].unwrap().key,
                            },
                        ),
                    forall|t: int|
                        j <= t < capi ==> self.clock_list@[#[trigger] ClockMap::sweep_pos(
                            hand,
                            t,
                            capi,
                        )] == pre.clock_list@[ClockMap::sweep_pos(hand, t, capi)],
                    found ==> j < cap && ClockMap::takes_slot(pre.clock_list@[pos as int]),
                decreases cap - j, (if found { 0int } else { 1int }),
            {
                let s = self.clock_list[pos];
                match s {
                    None => {
                        found = true;
                    },
                    Some(e) => {
                        if e.second_chance {
                            self.clock_list[pos] = Some(
                                Entry { second_chance: false, key: e.key },
                            );
                            j = j + 1;
                            pos = if pos + 1 == cap {
                                0
                            } else {
                                pos + 1
                            };
                        } else {
                            found = true;
                        }
                    },
                }
            }
            if cap > 0 {
                proof {
                    if found {
                        assert(ClockMap::sweep_finds(pre.clock_list@, hand, j as int));
                        assert(self.clock_list@[pos as int] == pre.clock_list@[pos as int]);
                    } else {
                        assert(j == cap);
                        assert(pos == pre.pointer);
                        assert(self.clock_list@[pos as int] == Some(
                            Entry {
                                second_chance: false,
                                key: pre.clock_list@[ClockMap::sweep_pos(
                                    hand,
                                    0,
                                    capi,
                                )].unwrap().key,
                            },
                        ));
                    }
                }
                let ghost mid = *self;
                let old_slot = self.clock_list[pos];
                if let Some(e) = old_slot {
                    self.value_map.remove(&e.key);
                }
                self.clock_list[pos] = Some(Entry { second_chance: false, key });
                self.value_map.insert(key, MapEntry { value, index: pos });
                self.pointer = if pos + 1 == cap {
                    0
                } else {
                    pos + 1
                };
                if self.miss < u64::MAX {
                    self.miss = self.miss + 1;
                }
                proof {
                    if found {
                        lemma_placed(pre, mid, *self, key, value, j as int);
                    } else {
                        lemma_full_lap(pre, mid, *self, key, value);
                    }
                }
            } else {
                proof {
                    assert(self.clock_list@ =~= pre.clock_list@);
                }
            }
        }
    }

    /// Reads the miss counter: the number of new keys this store has taken
    /// in so far. Only a zero-capacity store takes none.
    pub fn miss_count(&self) -> (r: u64)
        ensures
            r == self.miss,
    {
        self.miss
    }
}

/// After a sweep that settled at step `j` and the placement that follows it,
/// the store is well formed again and the whole cold-insert contract holds.
/// `mid` is the store as the sweep left it, before the placement.
proof fn lemma_placed(pre: ClockMap, mid: ClockMap, post: ClockMap, key: u64, value: u64, j: int)
    requires
        pre.wf(),
        !pre.value_map@.contains_key(key),
        0 < pre.capacity,
        0 <= j < pre.capacity as int,
        forall|t: int|
            0 <= t < j ==> !ClockMap::takes_slot(
                pre.clock_list@[#[trigger] ClockMap::sweep_pos(
                    pre.pointer as int,
                    t,
                    pre.capacity as int,
                )],
            ),
        ClockMap::takes_slot(
            pre.clock_list@[ClockMap::sweep_pos(pre.pointer as int, j, pre.capacity as int)],
        ),
        mid.capacity == pre.capacity,
        mid.pointer == pre.pointer,
        mid.miss == pre.miss,
        mid.value_map@ == pre.value_map@,
        mid.clock_list@.len() == pre.capacity,
        forall|t: int|
            0 <= t < j ==> mid.clock_list@[#[trigger] ClockMap::sweep_pos(
                pre.pointer as int,
                t,
                pre.capacity as int,
            )] == Some(
                Entry {
                    second_chance: false,
                    key: pre.clock_list@[ClockMap::sweep_pos(
                        pre.pointer as int,
                        t,
                        pre.capacity as int,
                    )].unwrap().key,
                },
            ),
        forall|t: int|
            j <= t < pre.capacity as int ==> mid.clock_list@[#[trigger] ClockMap::sweep_pos(
                pre.pointer as int,
                t,
                pre.capacity as int,
            )] == pre.clock_list@[ClockMap::sweep_pos(pre.pointer as int, t, pre.capacity as int)],
        post.capacity == pre.capacity,
        post.pointer == ({
            let pos = ClockMap::sweep_pos(pre.pointer as int, j, pre.capacity as int);
            if pos + 1 < pre.capacity as int {
                pos + 1
            } else {
                0
            }
        }),
        post.miss == ClockMap::bump(pre.miss),
        post.clock_list@ == mid.clock_list@.update(
            ClockMap::sweep_pos(pre.pointer as int, j, pre.capacity as int),
            Some(Entry { second_chance: false, key }),
        ),
        post.value_map@ == (match pre.clock_list@[ClockMap::sweep_pos(
            pre.pointer as int,
            j,
            pre.capacity as int,
        )] {
            Some(e) => pre.value_map@.remove(e.key),
            None => pre.value_map@,
        }).insert(
            key,
            MapEntry {
                value,
                index: ClockMap::sweep_pos(pre.pointer as int, j, pre.capacity as int) as usize,
            },
        ),
    ensures
        post.wf(),
        ClockMap::insert_post(pre, post, key, value),
{
    let cap = pre.capacity as int;
    let hand = pre.pointer as int;
    let pos = ClockMap::sweep_pos(hand, j, cap);

    assert forall|p: int|
        0 <= p < cap && p != pos implies (post.clock_list@[p].is_some()
        == pre.clock_list@[p].is_some()) && (pre.clock_list@[p].is_some()
        ==> post.clock_list@[p].unwrap().key == pre.clock_list@[p].unwrap().key) by {
        let t = if p >= hand {
            p - hand
        } else {
            p - hand + cap
        };
        assert(ClockMap::sweep_pos(hand, t, cap) == p);
        if t < j {
            assert(!ClockMap::takes_slot(pre.clock_list@[ClockMap::sweep_pos(hand, t, cap)]));
        }
    }

    assert(ClockMap::sweep_finds(pre.clock_list@, hand, j));
    assert forall|jj: int|
        ClockMap::sweep_finds(pre.clock_list@, hand, jj) implies jj == j by {
        if jj < j {
            assert(!ClockMap::takes_slot(pre.clock_list@[ClockMap::sweep_pos(hand, jj, cap)]));
        } else if jj > j {
            assert(!ClockMap::takes_slot(pre.clock_list@[ClockMap::sweep_pos(hand, j, cap)]));
        }
    }

    assert(ClockMap::placed_post(pre, post, key, value, j));

    assert forall|k: u64| #[trigger] post.value_map@.contains_key(k) implies {
        &&& (post.value_map@[k].index as int) < post.clock_list@.len()
        &&& post.clock_list@[post.value_map@[k].index as int].is_some()
        &&& post.clock_list@[post.value_map@[k].index as int].unwrap().key == k
    } by {
        if k != key {
            assert(pre.value_map@.contains_key(k));
            let i = pre.value_map@[k].index as int;
            if i == pos {
                assert(pre.clock_list@[pos].is_some());
                assert(pre.clock_list@[pos].unwrap().key == k);
                assert(!post.value_map@.contains_key(k));
            } else {
                assert(post.value_map@[k] == pre.value_map@[k]);
            }
        }
    }

    assert forall|p: int|
        0 <= p < post.clock_list@.len() && (#[trigger] post.clock_list@[p]).is_some() implies {
        &&& post.value_map@.contains_key(post.clock_list@[p].unwrap().key)
        &&& post.value_map@[post.clock_list@[p].unwrap().key].index == p
    } by {
        if p != pos {
            let k = post.clock_list@[p].unwrap().key;
            assert(pre.clock_list@[p].is_some() && pre.clock_list@[p].unwrap().key == k);
            assert(pre.value_map@.contains_key(k) && pre.value_map@[k].index == p);
            match pre.clock_list@[pos] {
                Some(e) => {
                    if k == e.key {
                        assert(pre.value_map@[e.key].index == pos);
                        assert(false);
                    }
                },
                None => {},
            }
            assert(post.value_map@.contains_key(k) && post.value_map@[k].index == p);
        }
    }
}

/// After a full lap in which every slot held a second chance — so the lap
/// stripped them all — and the placement at the hand that follows it, the
/// store is well formed again and the whole cold-insert contract holds.
/// `mid` is the store as the lap left it, before the placement.
proof fn lemma_full_lap(pre: ClockMap, mid: ClockMap, post: ClockMap, key: u64, value: u64)
    requires
        pre.wf(),
        !pre.value_map@.contains_key(key),
        0 < pre.capacity,
        forall|t: int|
            0 <= t < pre.capacity as int ==> !ClockMap::takes_slot(
                pre.clock_list@[#[trigger] ClockMap::sweep_pos(
                    pre.pointer as int,
                    t,
                    pre.capacity as int,
                )],
            ),
        mid.capacity == pre.capacity,
        mid.pointer == pre.pointer,
        mid.miss == pre.miss,
        mid.value_map@ == pre.value_map@,
        mid.clock_list@.len() == pre.capacity,
        forall|t: int|
            0 <= t < pre.capacity as int ==> mid.clock_list@[#[trigger] ClockMap::sweep_pos(
                pre.pointer as int,
                t,
                pre.capacity as int,
            )] == Some(
                Entry {
                    second_chance: false,
                    key: pre.clock_list@[ClockMap::sweep_pos(
                        pre.pointer as int,
                        t,
                        pre.capacity as int,
                    )].unwrap().key,
                },
            ),
        post.capacity == pre.capacity,
        post.pointer == if pre.pointer as int + 1 < pre.capacity as int {
            pre.pointer as int + 1
        } else {
            0
        },
        post.miss == ClockMap::bump(pre.miss),
        post.clock_list@ == mid.clock_list@.update(
            pre.pointer as int,
            Some(Entry { second_chance: false, key }),
        ),
        post.value_map@ == pre.value_map@.remove(
            pre.clock_list@[pre.pointer as int].unwrap().key,
        ).insert(key, MapEntry { value, index: pre.pointer }),
    ensures
        post.wf(),
        ClockMap::insert_post(pre, post, key, value),
{
    let cap = pre.capacity as int;
    let hand = pre.pointer as int;

    assert forall|p: int| 0 <= p < cap implies pre.clock_list@[p].is_some() && (p != hand
        ==> post.clock_list@[p] == Some(
        Entry { second_chance: false, key: pre.clock_list@[p].unwrap().key },
    )) by {
        let t = if p >= hand {
            p - hand
        } else {
            p - hand + cap
        };
        assert(ClockMap::sweep_pos(hand, t, cap) == p);
        assert(!ClockMap::takes_slot(pre.clock_list@[ClockMap::sweep_pos(hand, t, cap)]));
        assert(mid.clock_list@[ClockMap::sweep_pos(hand, t, cap)] == Some(
            Entry {
                second_chance: false,
                key: pre.clock_list@[ClockMap::sweep_pos(hand, t, cap)].unwrap().key,
            },
        ));
    }

    assert forall|jj: int|
        !ClockMap::sweep_finds(pre.clock_list@, hand, jj) by {
        if 0 <= jj < cap {
            assert(!ClockMap::takes_slot(
                pre.clock_list@[ClockMap::sweep_pos(hand, jj, cap)],
            ));
        }
    }

    assert(ClockMap::full_lap_post(pre, post, key, value));

    let evicted = pre.clock_list@[hand].unwrap().key;
    assert(pre.value_map@.contains_key(evicted) && pre.value_map@[evicted].index == hand);

    assert forall|k: u64| #[trigger] post.value_map@.contains_key(k) implies {
        &&& (post.value_map@[k].index as int) < post.clock_list@.len()
        &&& post.clock_list@[post.value_map@[k].index as int].is_some()
        &&& post.clock_list@[post.value_map@[k].index as int].unwrap().key == k
    } by {
        if k != key {
            assert(pre.value_map@.contains_key(k) && k != evicted);
            let i = pre.value_map@[k].index as int;
            assert(pre.clock_list@[i].unwrap().key == k);
            assert(i != hand);
            assert(post.value_map@[k] == pre.value_map@[k]);
        }
    }

    assert forall|p: int|
        0 <= p < post.clock_list@.len() && (#[trigger] post.clock_list@[p]).is_some() implies {
        &&& post.value_map@.contains_key(post.clock_list@[p].unwrap().key)
        &&& post.value_map@[post.clock_list@[p].unwrap().key].index == p
    } by {
        if p != hand {
            let k = post.clock_list@[p].unwrap().key;
            assert(pre.clock_list@[p].is_some() && pre.clock_list@[p].unwrap().key == k);
            assert(pre.value_map@.contains_key(k) && pre.value_map@[k].index == p);
            assert(k != evicted);
            assert(k != key);
            assert(post.value_map@.contains_key(k) && post.value_map@[k].index == p);
        }
    }
}

} // verus!
