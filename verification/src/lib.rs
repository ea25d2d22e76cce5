//! A stable-key, cache-dense collection: a sparse set (generational slot map).
//!
//! Values are stored contiguously for fast iteration while callers hold an
//! opaque [`SparseKey`] that stays valid across unrelated insertions and
//! removals and becomes provably stale once its row is reused.
//!
//! The container keeps three parallel structures: a dense array of values, a
//! dense array of the keys naming those values, and a sparse array of rows.
//! Every public operation translates a key into a sparse-array lookup,
//! validates the generation, and then reads or writes the dense arrays.

use vstd::prelude::*;

mod sparse_entry;
mod sparse_key;
mod storage;

pub use sparse_entry::MAX_EPOCH;
pub use sparse_entry::MAX_SPARSE_INDEX;
pub use sparse_entry::SparseEntry;
pub use sparse_entry::epoch_successor;
pub use sparse_key::SparseKey;

verus! {

use vstd::pervasive::cloned;
use vstd::relations::injective_on;
use vstd::set_lib::lemma_int_range;
use vstd::set_lib::lemma_len_subset;
use vstd::set_lib::lemma_map_size;
use vstd::set_lib::set_int_range;

/// A container that stores values contiguously and hands out stable,
/// generation-checked keys to access them.
///
/// Insertions are amortized O(1); removals are O(1) when the dense order may
/// change ([`SparseSet::swap_remove`]) and O(n) when it must be kept
/// ([`SparseSet::remove`]); lookups are O(1).
pub struct SparseSet<T> {
    /// The dense value and key arrays together with the sparse row array.
    storage: storage::SparseArrayStorage<T>,
    /// Head of the free list of sparse rows; [`MAX_SPARSE_INDEX`] when empty.
    next_free_sparse_entry: usize,
}

impl<T> SparseSet<T> {
    /// The values, in dense order.
    pub closed spec fn spec_values(&self) -> Seq<T> {
        self.storage.spec_dense_values()
    }

    /// For each dense position, the key naming the value there.
    pub closed spec fn spec_keys(&self) -> Seq<SparseKey> {
        self.storage.spec_dense_keys()
    }

    /// The sparse array: one row per sparse index ever allocated.
    pub closed spec fn spec_slots(&self) -> Seq<SparseEntry> {
        self.storage.spec_sparse()
    }

    /// Head of the free list; [`MAX_SPARSE_INDEX`] when no row is free.
    pub closed spec fn spec_free_head(&self) -> usize {
        self.next_free_sparse_entry
    }

    /// Dense-to-sparse consistency: every dense key names an alive row that
    /// points back at exactly that dense position, at the key's epoch.
    pub open spec fn dense_keys_consistent(&self) -> bool {
        forall|d: int|
            0 <= d < self.spec_keys().len() ==> {
                let k = #[trigger] self.spec_keys()[d];
                &&& k.sparse_index < self.spec_slots().len()
                &&& self.spec_slots()[k.sparse_index as int] is Alive
                &&& self.spec_slots()[k.sparse_index as int]->dense_index as int == d
                &&& self.spec_slots()[k.sparse_index as int]->epoch == k.epoch
            }
    }

    /// Sparse-to-dense consistency: every alive row points at a dense position
    /// whose key names exactly that row, at the row's epoch.
    pub open spec fn slots_consistent(&self) -> bool {
        forall|s: int|
            0 <= s < self.spec_slots().len() && (#[trigger] self.spec_slots()[s]) is Alive ==> {
                let e = self.spec_slots()[s];
                &&& e->dense_index < self.spec_keys().len()
                &&& self.spec_keys()[e->dense_index as int].sparse_index as int == s
                &&& self.spec_keys()[e->dense_index as int].epoch == e->epoch
            }
    }

    /// The link of one free row is either the terminator or another free row.
    pub open spec fn free_link_ok(&self, s: int) -> bool {
        let n = self.spec_slots()[s]->next_free;
        ||| n == MAX_SPARSE_INDEX
        ||| (n < self.spec_slots().len() && self.spec_slots()[n as int] is Free)
    }

    /// Free-list soundness: the head and every link lead to free rows only,
    /// no link points at the head, and no two links meet at the same row.
    /// Together these keep the chain walkable one pop at a time.
    pub open spec fn free_list_consistent(&self) -> bool {
        &&& (self.spec_free_head() == MAX_SPARSE_INDEX || (self.spec_free_head()
            < self.spec_slots().len() && self.spec_slots()[self.spec_free_head() as int] is Free))
        &&& forall|s: int|
            0 <= s < self.spec_slots().len() && (#[trigger] self.spec_slots()[s]) is Free
                ==> self.free_link_ok(s)
        &&& (self.spec_free_head() != MAX_SPARSE_INDEX ==> forall|s: int|
            0 <= s < self.spec_slots().len() && (#[trigger] self.spec_slots()[s]) is Free
                ==> self.spec_slots()[s]->next_free != self.spec_free_head())
        &&& forall|s1: int, s2: int|
            {
                &&& 0 <= s1 < self.spec_slots().len()
                &&& 0 <= s2 < self.spec_slots().len()
                &&& s1 != s2
                &&& (#[trigger] self.spec_slots()[s1]) is Free
                &&& (#[trigger] self.spec_slots()[s2]) is Free
                &&& self.spec_slots()[s1]->next_free != MAX_SPARSE_INDEX
            } ==> self.spec_slots()[s1]->next_free != self.spec_slots()[s2]->next_free
    }

    /// Well-formedness: the two dense arrays run in parallel, never exceed the
    /// sparse array, and the sparse/dense translation and the free list are
    /// mutually consistent. Every operation preserves this.
    pub open spec fn wf(&self) -> bool {
        &&& self.spec_keys().len() == self.spec_values().len()
        &&& self.spec_values().len() <= self.spec_slots().len()
        &&& self.dense_keys_consistent()
        &&& self.slots_consistent()
        &&& self.free_list_consistent()
    }

    /// A key is accepted exactly when its row exists, is alive, and still
    /// carries the key's epoch.
    pub open spec fn valid_key(&self, key: SparseKey) -> bool {
        &&& key.sparse_index < self.spec_slots().len()
        &&& self.spec_slots()[key.sparse_index as int] is Alive
        &&& self.spec_slots()[key.sparse_index as int]->epoch == key.epoch
    }

    /// The dense position a valid key's value currently sits at.
    pub open spec fn key_index(&self, key: SparseKey) -> int {
        self.spec_slots()[key.sparse_index as int]->dense_index as int
    }

    /// What a lookup of `key` yields: the value a valid key points at, and
    /// nothing for a stale or absent key.
    pub open spec fn spec_get(&self, key: SparseKey) -> Option<T> {
        if self.valid_key(key) {
            Some(self.spec_values()[self.key_index(key)])
        } else {
            None
        }
    }

    /// The key the next [`SparseSet::push`] will return: the head of the free
    /// list at its stored next epoch, or a brand-new row at epoch zero.
    pub open spec fn peek_key(&self) -> SparseKey {
        if self.spec_free_head() != MAX_SPARSE_INDEX {
            SparseKey {
                sparse_index: self.spec_free_head(),
                epoch: self.spec_slots()[self.spec_free_head() as int]->next_epoch,
            }
        } else {
            SparseKey { sparse_index: self.spec_slots().len() as usize, epoch: 0 }
        }
    }

    /// Creates an empty set. Does not allocate.
    ///
    /// Zero-sized value types are not supported.
    pub fn new() -> (r: Self)
        requires
            vstd::layout::size_of::<T>() > 0,
        ensures
            r.wf(),
            r.spec_values() == Seq::<T>::empty(),
            r.spec_keys() == Seq::<SparseKey>::empty(),
            r.spec_slots() == Seq::<SparseEntry>::empty(),
            r.spec_free_head() == MAX_SPARSE_INDEX,
    {
        SparseSet {
            storage: storage::SparseArrayStorage::new(),
            next_free_sparse_entry: MAX_SPARSE_INDEX,
        }
    }

    /// Creates an empty set with memory reserved for `capacity` elements.
    ///
    /// Zero-sized value types are not supported.
    pub fn with_capacity(capacity: usize) -> (r: Self)
        requires
            vstd::layout::size_of::<T>() > 0,
        ensures
            r.wf(),
            r.spec_values() == Seq::<T>::empty(),
            r.spec_keys() == Seq::<SparseKey>::empty(),
            r.spec_slots() == Seq::<SparseEntry>::empty(),
            r.spec_free_head() == MAX_SPARSE_INDEX,
    {
        SparseSet {
            storage: storage::SparseArrayStorage::with_capacity(capacity),
            next_free_sparse_entry: MAX_SPARSE_INDEX,
        }
    }

    /// The number of elements in the set.
    pub fn len(&self) -> (r: usize)
        ensures
            r == self.spec_values().len(),
    {
        self.storage.get_dense_len()
    }

    /// True exactly when the set holds no element.
    pub fn is_empty(&self) -> (r: bool)
        ensures
            r == (self.spec_values().len() == 0),
    {
        self.storage.dense_values().is_empty()
    }

    /// True exactly when `key` currently points at a value in this set. A key
    /// whose row is out of range is reported as absent rather than rejected.
    pub fn contains(&self, key: SparseKey) -> (r: bool)
        ensures
            r == self.valid_key(key),
    {
        if key.sparse_index >= self.storage.get_sparse_len() {
            return false;
        }
        let entry = self.storage.sparse_entry(key.sparse_index);
        entry.is_alive() && entry.epoch() == key.epoch
    }

    /// The value stored at `key`, if the key is still valid.
    pub fn get(&self, key: SparseKey) -> (r: Option<&T>)
        requires
            self.wf(),
            key.sparse_index < self.spec_slots().len(),
        ensures
            match r {
                Some(v) => self.valid_key(key) && *v == self.spec_values()[self.key_index(key)],
                None => !self.valid_key(key),
            },
    {
        let entry = self.storage.sparse_entry(key.sparse_index);
        if entry.is_alive() && entry.epoch() == key.epoch {
            Some(self.storage.dense_value(entry.dense_index()))
        } else {
            None
        }
    }

    /// The current dense position of the value at `key`, if the key is valid.
    pub fn index(&self, key: SparseKey) -> (r: Option<usize>)
        requires
            self.wf(),
            key.sparse_index < self.spec_slots().len(),
        ensures
            match r {
                Some(i) => self.valid_key(key) && i == self.key_index(key),
                None => !self.valid_key(key),
            },
    {
        let entry = self.storage.sparse_entry(key.sparse_index);
        if entry.is_alive() && entry.epoch() == key.epoch {
            Some(entry.dense_index())
        } else {
            None
        }
    }

    /// Mutable access to the value stored at `key`, if the key is still
    /// valid. Only that one value can change through the returned reference;
    /// the keys, the rows and every other value stay as they were.
    pub fn get_mut(&mut self, key: SparseKey) -> (r: Option<&mut T>)
        requires
            old(self).wf(),
            key.sparse_index < old(self).spec_slots().len(),
        ensures
            final(self).wf(),
            final(self).spec_keys() == old(self).spec_keys(),
            final(self).spec_slots() == old(self).spec_slots(),
            final(self).spec_free_head() == old(self).spec_free_head(),
            match r {
                Some(v) => {
                    &&& old(self).valid_key(key)
                    &&& *v == old(self).spec_values()[old(self).key_index(key)]
                    &&& final(self).spec_values() == old(self).spec_values().update(
                        old(self).key_index(key),
                        *final(v),
                    )
                },
                None => {
                    &&& !old(self).valid_key(key)
                    &&& final(self).spec_values() == old(self).spec_values()
                },
            },
    {
        let entry = self.storage.sparse_entry(key.sparse_index);
        if entry.is_alive() && entry.epoch() == key.epoch {
            Some(self.storage.dense_value_mut(entry.dense_index()))
        } else {
            None
        }
    }

    /// The values in dense order.
    pub fn values(&self) -> (r: &Vec<T>)
        ensures
            r@ == self.spec_values(),
    {
        self.storage.dense_values()
    }

    /// Mutable access to the dense value array, for updating values in place.
    /// The elements may be reassigned freely — the keys and rows are untouched
    /// and keep pointing at the same positions — but the length must be left
    /// as it is: the set is well-formed afterwards exactly when it is.
    pub fn values_mut(&mut self) -> (r: &mut Vec<T>)
        requires
            old(self).wf(),
        ensures
            r@ == old(self).spec_values(),
            final(self).spec_values() == final(r)@,
            final(self).spec_keys() == old(self).spec_keys(),
            final(self).spec_slots() == old(self).spec_slots(),
            final(self).spec_free_head() == old(self).spec_free_head(),
            final(r)@.len() == old(self).spec_values().len() ==> final(self).wf(),
    {
        self.storage.dense_values_mut()
    }

    /// The keys in dense order; the key at position `i` names the value at
    /// position `i` of [`SparseSet::values`].
    pub fn keys(&self) -> (r: &Vec<SparseKey>)
        ensures
            r@ == self.spec_keys(),
    {
        self.storage.dense_keys()
    }

    /// Exchanges the dense entries at positions `i` and `j` and repoints the
    /// two affected sparse rows, so every key keeps naming its value.
    fn swap_dense_positions(&mut self, i: usize, j: usize)
        requires
            old(self).wf(),
            i < old(self).spec_values().len(),
            j < old(self).spec_values().len(),
        ensures
            final(self).wf(),
            final(self).spec_values() == old(self).spec_values().update(
                i as int,
                old(self).spec_values()[j as int],
            ).update(j as int, old(self).spec_values()[i as int]),
            final(self).spec_keys() == old(self).spec_keys().update(
                i as int,
                old(self).spec_keys()[j as int],
            ).update(j as int, old(self).spec_keys()[i as int]),
            final(self).spec_free_head() == old(self).spec_free_head(),
            final(self).spec_slots().len() == old(self).spec_slots().len(),
            forall|s: int|
                0 <= s < old(self).spec_slots().len() && (#[trigger] old(self).spec_slots()[s])
                    is Free ==> final(self).spec_slots()[s] == old(self).spec_slots()[s],
            forall|s: int|
                0 <= s < old(self).spec_slots().len() && (#[trigger] old(self).spec_slots()[s])
                    is Alive ==> {
                    &&& final(self).spec_slots()[s] is Alive
                    &&& final(self).spec_slots()[s]->epoch == old(self).spec_slots()[s]->epoch
                    &&& final(self).spec_slots()[s]->dense_index == (if old(self).spec_slots()[s]
                        ->dense_index == i {
                        j
                    } else if old(self).spec_slots()[s]->dense_index == j {
                        i
                    } else {
                        old(self).spec_slots()[s]->dense_index
                    })
                },
            forall|k: SparseKey|
                #![trigger old(self).valid_key(k)]
                #![trigger final(self).valid_key(k)]
                final(self).valid_key(k) == old(self).valid_key(k),
            forall|k: SparseKey| #[trigger]
                old(self).valid_key(k) ==> final(self).key_index(k) == (if old(self).key_index(k)
                    == i {
                    j as int
                } else if old(self).key_index(k) == j {
                    i as int
                } else {
                    old(self).key_index(k)
                }),
            forall|k: SparseKey| #[trigger]
                old(self).valid_key(k) ==> final(self).spec_values()[final(self).key_index(k)]
                    == old(self).spec_values()[old(self).key_index(k)],
    {
        let ghost pre = *old(self);
        let key_i = self.storage.dense_key(i);
        let key_j = self.storage.dense_key(j);
        self.storage.swap_dense(i, j);
        let entry_i = SparseEntry::new_alive(j, key_i.epoch);
        self.storage.set_sparse_entry(key_i.sparse_index, entry_i);
        let entry_j = SparseEntry::new_alive(i, key_j.epoch);
        self.storage.set_sparse_entry(key_j.sparse_index, entry_j);
        proof {
            let keys0 = pre.spec_keys();
            let slots0 = pre.spec_slots();
            let keys1 = self.spec_keys();
            let slots1 = self.spec_slots();
            assert(slots0[key_i.sparse_index as int]->dense_index as int == i as int);
            assert(slots0[key_j.sparse_index as int]->dense_index as int == j as int);
            assert(self.dense_keys_consistent()) by {
                assert forall|d: int| 0 <= d < keys1.len() implies {
                    let k = #[trigger] keys1[d];
                    &&& k.sparse_index < slots1.len()
                    &&& slots1[k.sparse_index as int] is Alive
                    &&& slots1[k.sparse_index as int]->dense_index as int == d
                    &&& slots1[k.sparse_index as int]->epoch == k.epoch
                } by {
                    if d == i as int {
                        assert(keys1[d] == keys0[j as int]);
                    } else if d == j as int {
                        assert(keys1[d] == keys0[i as int]);
                    } else {
                        assert(keys1[d] == keys0[d]);
                        assert(slots0[keys0[d].sparse_index as int]->dense_index as int == d);
                        assert(keys0[d].sparse_index != key_i.sparse_index);
                        assert(keys0[d].sparse_index != key_j.sparse_index);
                    }
                }
            }
            assert(self.slots_consistent()) by {
                assert forall|s: int|
                    0 <= s < slots1.len() && (#[trigger] slots1[s]) is Alive implies {
                    let e = slots1[s];
                    &&& e->dense_index < keys1.len()
                    &&& keys1[e->dense_index as int].sparse_index as int == s
                    &&& keys1[e->dense_index as int].epoch == e->epoch
                } by {
                    if s == key_j.sparse_index as int {
                        assert(keys1[i as int] == keys0[j as int]);
                    } else if s == key_i.sparse_index as int {
                        assert(keys1[j as int] == keys0[i as int]);
                    } else {
                        assert(slots1[s] == slots0[s]);
                        let d = slots0[s]->dense_index as int;
                        assert(keys0[d].sparse_index as int == s);
                        if d == i as int || d == j as int {
                            assert(false);
                        }
                        assert(keys1[d] == keys0[d]);
                    }
                }
            }
            assert(self.free_list_consistent()) by {
                assert forall|s: int|
                    0 <= s < slots1.len() && (#[trigger] slots1[s]) is Free implies slots1[s]
                    == slots0[s] by {
                    if s == key_i.sparse_index as int || s == key_j.sparse_index as int {
                        assert(slots1[s] is Alive);
                    }
                }
            }
            assert forall|s: int|
                0 <= s < slots0.len() && (#[trigger] slots0[s]) is Alive implies {
                &&& slots1[s] is Alive
                &&& slots1[s]->epoch == slots0[s]->epoch
                &&& slots1[s]->dense_index == (if slots0[s]->dense_index == i {
                    j
                } else if slots0[s]->dense_index == j {
                    i
                } else {
                    slots0[s]->dense_index
                })
            } by {
                if s != key_i.sparse_index as int && s != key_j.sparse_index as int {
                    let d = slots0[s]->dense_index as int;
                    assert(keys0[d].sparse_index as int == s);
                    if d == i as int || d == j as int {
                        assert(false);
                    }
                }
            }
            assert forall|k: SparseKey| final(self).valid_key(k) == pre.valid_key(k) by {
                if k.sparse_index < slots0.len() {
                    if k.sparse_index == key_i.sparse_index || k.sparse_index
                        == key_j.sparse_index {
                        assert(slots0[k.sparse_index as int] is Alive);
                        assert(slots1[k.sparse_index as int] is Alive);
                        assert(slots1[k.sparse_index as int]->epoch == slots0[k.sparse_index
                            as int]->epoch);
                    }
                }
            }
        }
    }

    /// Marks the row of `key` as free, stamping the next epoch onto it. The
    /// row joins the free list unless its epoch space is exhausted, in which
    /// case it is retired and never reused. Callers must separately drop the
    /// dense entry the row pointed at; this touches the sparse side only.
    fn mark_as_free(&mut self, key: SparseKey)
        requires
            key.sparse_index < old(self).spec_slots().len(),
            old(self).spec_slots()[key.sparse_index as int] is Alive,
            old(self).spec_slots()[key.sparse_index as int]->epoch == key.epoch,
        ensures
            final(self).spec_values() == old(self).spec_values(),
            final(self).spec_keys() == old(self).spec_keys(),
            final(self).spec_slots() == old(self).spec_slots().update(
                key.sparse_index as int,
                SparseEntry::Free {
                    next_free: if key.epoch < MAX_EPOCH {
                        old(self).spec_free_head()
                    } else {
                        MAX_SPARSE_INDEX
                    },
                    next_epoch: epoch_successor(key.epoch),
                },
            ),
            final(self).spec_free_head() == (if key.epoch < MAX_EPOCH {
                key.sparse_index
            } else {
                old(self).spec_free_head()
            }),
    {
        let mut entry = self.storage.sparse_entry(key.sparse_index);
        let next_free = if key.epoch < MAX_EPOCH {
            self.next_free_sparse_entry
        } else {
            MAX_SPARSE_INDEX
        };
        entry.mark_free(next_free);
        self.storage.set_sparse_entry(key.sparse_index, entry);
        if key.epoch < MAX_EPOCH {
            self.next_free_sparse_entry = key.sparse_index;
        }
    }

    /// Freeing an alive row preserves free-list soundness: the freed row
    /// links to the old head (or to the terminator, when it is retired), it
    /// was no link's target while alive, and every other row is untouched.
    proof fn lemma_freeing_alive_row_keeps_free_list(pre: Self, post: Self, key: SparseKey)
        requires
            pre.free_list_consistent(),
            key.sparse_index < pre.spec_slots().len(),
            pre.spec_slots()[key.sparse_index as int] is Alive,
            post.spec_slots() == pre.spec_slots().update(
                key.sparse_index as int,
                SparseEntry::Free {
                    next_free: if key.epoch < MAX_EPOCH {
                        pre.spec_free_head()
                    } else {
                        MAX_SPARSE_INDEX
                    },
                    next_epoch: epoch_successor(key.epoch),
                },
            ),
            post.spec_free_head() == (if key.epoch < MAX_EPOCH {
                key.sparse_index
            } else {
                pre.spec_free_head()
            }),
        ensures
            post.free_list_consistent(),
    {
        let slots0 = pre.spec_slots();
        let slots1 = post.spec_slots();
        let ks = key.sparse_index as int;
        assert forall|s: int|
            0 <= s < slots1.len() && (#[trigger] slots1[s]) is Free implies post.free_link_ok(
            s,
        ) by {
            if s == ks {
                if key.epoch < MAX_EPOCH && pre.spec_free_head() != MAX_SPARSE_INDEX {
                    assert(slots0[pre.spec_free_head() as int] is Free);
                }
            } else {
                assert(slots1[s] == slots0[s]);
                if slots0[s]->next_free != MAX_SPARSE_INDEX {
                    assert(slots0[slots0[s]->next_free as int] is Free);
                    assert(slots0[s]->next_free as int != ks);
                }
            }
        }
        if post.spec_free_head() != MAX_SPARSE_INDEX {
            assert forall|s: int|
                0 <= s < slots1.len() && (#[trigger] slots1[s]) is Free implies slots1[s]
                ->next_free != post.spec_free_head() by {
                if key.epoch < MAX_EPOCH {
                    // The new head is the freed row: it was alive, so no link
                    // led to it, and its own link is the old head, from which
                    // the old rules keep it distinct.
                    if s == ks {
                        if pre.spec_free_head() != MAX_SPARSE_INDEX {
                            assert(slots0[pre.spec_free_head() as int] is Free);
                        }
                    } else {
                        assert(slots1[s] == slots0[s]);
                        if slots0[s]->next_free != MAX_SPARSE_INDEX {
                            assert(slots0[slots0[s]->next_free as int] is Free);
                        }
                    }
                } else {
                    if s != ks {
                        assert(slots1[s] == slots0[s]);
                    }
                }
            }
        }
        assert forall|s1: int, s2: int|
            {
                &&& 0 <= s1 < slots1.len()
                &&& 0 <= s2 < slots1.len()
                &&& s1 != s2
                &&& (#[trigger] slots1[s1]) is Free
                &&& (#[trigger] slots1[s2]) is Free
                &&& slots1[s1]->next_free != MAX_SPARSE_INDEX
            } implies slots1[s1]->next_free != slots1[s2]->next_free by {
            if s1 != ks {
                assert(slots1[s1] == slots0[s1]);
            }
            if s2 != ks {
                assert(slots1[s2] == slots0[s2]);
            }
        }
    }

    /// Removes the last dense element, freeing its row. This is the one
    /// removal every other removal is reduced to: taking the last element
    /// moves nothing, so all remaining keys keep their positions.
    fn remove_last(&mut self) -> (r: T)
        requires
            old(self).wf(),
            old(self).spec_values().len() > 0,
        ensures
            final(self).wf(),
            r == old(self).spec_values().last(),
            final(self).spec_values() == old(self).spec_values().drop_last(),
            final(self).spec_keys() == old(self).spec_keys().drop_last(),
            final(self).spec_slots() == old(self).spec_slots().update(
                old(self).spec_keys().last().sparse_index as int,
                SparseEntry::Free {
                    next_free: if old(self).spec_keys().last().epoch < MAX_EPOCH {
                        old(self).spec_free_head()
                    } else {
                        MAX_SPARSE_INDEX
                    },
                    next_epoch: epoch_successor(old(self).spec_keys().last().epoch),
                },
            ),
            final(self).spec_free_head() == (if old(self).spec_keys().last().epoch < MAX_EPOCH {
                old(self).spec_keys().last().sparse_index
            } else {
                old(self).spec_free_head()
            }),
            forall|k: SparseKey|
                #![trigger old(self).valid_key(k)]
                #![trigger final(self).valid_key(k)]
                final(self).valid_key(k) <==> (old(self).valid_key(k) && k != old(self).spec_keys().last()),
            forall|k: SparseKey| #[trigger]
                final(self).valid_key(k) ==> final(self).key_index(k) == old(self).key_index(k),
    {
        let ghost pre = *old(self);
        let last = self.storage.get_dense_len() - 1;
        let key = self.storage.dense_key(last);
        let value = self.storage.pop_dense();
        self.mark_as_free(key);
        proof {
            let keys0 = pre.spec_keys();
            let slots0 = pre.spec_slots();
            let keys1 = self.spec_keys();
            let slots1 = self.spec_slots();
            let ks = key.sparse_index as int;
            assert(slots0[ks] is Alive);
            assert(slots0[ks]->dense_index as int == last as int);
            assert(slots0[ks]->epoch == key.epoch);
            assert(self.dense_keys_consistent()) by {
                assert forall|d: int| 0 <= d < keys1.len() implies {
                    let k = #[trigger] keys1[d];
                    &&& k.sparse_index < slots1.len()
                    &&& slots1[k.sparse_index as int] is Alive
                    &&& slots1[k.sparse_index as int]->dense_index as int == d
                    &&& slots1[k.sparse_index as int]->epoch == k.epoch
                } by {
                    assert(keys1[d] == keys0[d]);
                    assert(slots0[keys0[d].sparse_index as int]->dense_index as int == d);
                    assert(keys0[d].sparse_index as int != ks);
                }
            }
            assert(self.slots_consistent()) by {
                assert forall|s: int|
                    0 <= s < slots1.len() && (#[trigger] slots1[s]) is Alive implies {
                    let e = slots1[s];
                    &&& e->dense_index < keys1.len()
                    &&& keys1[e->dense_index as int].sparse_index as int == s
                    &&& keys1[e->dense_index as int].epoch == e->epoch
                } by {
                    assert(s != ks);
                    assert(slots1[s] == slots0[s]);
                    let d = slots0[s]->dense_index as int;
                    assert(keys0[d].sparse_index as int == s);
                    if d == last as int {
                        assert(false);
                    }
                    assert(keys1[d] == keys0[d]);
                }
            }
            Self::lemma_freeing_alive_row_keeps_free_list(pre, *self, key);
            assert forall|k: SparseKey| #[trigger]
                final(self).valid_key(k) <==> (pre.valid_key(k) && k != keys0.last()) by {
                if k.sparse_index as int == ks {
                    assert(!self.valid_key(k));
                    if pre.valid_key(k) {
                        assert(k.epoch == key.epoch);
                        assert(k == keys0.last());
                    }
                }
            }
        }
        value
    }

    /// Inserts `value` and returns the key that names it. Reuses the head of
    /// the free list when a row is free, and allocates a brand-new row at
    /// epoch zero otherwise. No existing key is invalidated, and the returned
    /// key was never valid before — pushing after removing reissues the row at
    /// an advanced epoch, so the removed key stays stale.
    pub fn push(&mut self, value: T) -> (key: SparseKey)
        requires
            old(self).wf(),
            old(self).spec_slots().len() < usize::MAX,
        ensures
            final(self).wf(),
            key == old(self).peek_key(),
            !old(self).valid_key(key),
            final(self).valid_key(key),
            final(self).spec_values() == old(self).spec_values().push(value),
            final(self).spec_keys() == old(self).spec_keys().push(key),
            final(self).key_index(key) == old(self).spec_values().len(),
            final(self).spec_get(key) == Some(value),
            final(self).spec_slots().len() == (if old(self).spec_free_head() != MAX_SPARSE_INDEX {
                old(self).spec_slots().len()
            } else {
                old(self).spec_slots().len() + 1
            }),
            final(self).spec_free_head() == (if old(self).spec_free_head() != MAX_SPARSE_INDEX {
                old(self).spec_slots()[old(self).spec_free_head() as int]->next_free
            } else {
                old(self).spec_free_head()
            }),
            forall|s: int|
                0 <= s < old(self).spec_slots().len() && (#[trigger] old(self).spec_slots()[s])
                    is Free && s != old(self).spec_free_head() as int ==> final(self).spec_slots()[s] == old(self).spec_slots()[s],
            forall|k: SparseKey|
                #![trigger old(self).valid_key(k)]
                #![trigger final(self).valid_key(k)]
                final(self).valid_key(k) <==> (old(self).valid_key(k) || k == key),
            forall|k: SparseKey| #[trigger]
                old(self).valid_key(k) ==> final(self).key_index(k) == old(self).key_index(k),
            forall|k: SparseKey| #[trigger]
                old(self).valid_key(k) ==> final(self).spec_get(k) == old(self).spec_get(k),
    {
        let ghost pre = *old(self);
        if self.next_free_sparse_entry != MAX_SPARSE_INDEX {
            proof {
                lemma_dense_never_exceeds_sparse(&pre);
            }
            let new_sparse_index = self.next_free_sparse_entry;
            let free_entry = self.storage.sparse_entry(new_sparse_index);
            self.next_free_sparse_entry = free_entry.next_free();
            let key = SparseKey { sparse_index: new_sparse_index, epoch: free_entry.next_epoch() };
            self.storage.insert_with_existing_sparse_item(key, value);
            proof {
                let keys0 = pre.spec_keys();
                let slots0 = pre.spec_slots();
                let keys1 = self.spec_keys();
                let slots1 = self.spec_slots();
                let h = key.sparse_index as int;
                assert(slots0[h] is Free);
                assert(self.dense_keys_consistent()) by {
                    assert forall|d: int| 0 <= d < keys1.len() implies {
                        let k = #[trigger] keys1[d];
                        &&& k.sparse_index < slots1.len()
                        &&& slots1[k.sparse_index as int] is Alive
                        &&& slots1[k.sparse_index as int]->dense_index as int == d
                        &&& slots1[k.sparse_index as int]->epoch == k.epoch
                    } by {
                        if d < keys0.len() {
                            assert(keys1[d] == keys0[d]);
                            assert(slots0[keys0[d].sparse_index as int] is Alive);
                            assert(keys0[d].sparse_index as int != h);
                        }
                    }
                }
                assert(self.slots_consistent()) by {
                    assert forall|s: int|
                        0 <= s < slots1.len() && (#[trigger] slots1[s]) is Alive implies {
                        let e = slots1[s];
                        &&& e->dense_index < keys1.len()
                        &&& keys1[e->dense_index as int].sparse_index as int == s
                        &&& keys1[e->dense_index as int].epoch == e->epoch
                    } by {
                        if s != h {
                            assert(slots1[s] == slots0[s]);
                            let d = slots0[s]->dense_index as int;
                            assert(keys0[d].sparse_index as int == s);
                            assert(keys1[d] == keys0[d]);
                        }
                    }
                }
                assert(self.free_list_consistent()) by {
                    // The popped head was no row's link target, so every
                    // remaining link still leads to a free row; link targets
                    // are unique, so nothing links at the new head either.
                    assert(slots0[h]->next_free != h);
                    if slots0[h]->next_free != MAX_SPARSE_INDEX {
                        assert(slots0[slots0[h]->next_free as int] is Free);
                    }
                    assert forall|s: int|
                        0 <= s < slots1.len() && (#[trigger] slots1[s]) is Free implies
                        self.free_link_ok(s) by {
                        assert(s != h);
                        assert(slots1[s] == slots0[s]);
                        assert(slots0[s]->next_free != h);
                        if slots0[s]->next_free != MAX_SPARSE_INDEX {
                            assert(slots0[slots0[s]->next_free as int] is Free);
                        }
                    }
                    if self.spec_free_head() != MAX_SPARSE_INDEX {
                        assert forall|s: int|
                            0 <= s < slots1.len() && (#[trigger] slots1[s]) is Free implies
                            slots1[s]->next_free != self.spec_free_head() by {
                            assert(s != h);
                            assert(slots0[h]->next_free == self.spec_free_head());
                            if slots0[s]->next_free == self.spec_free_head() {
                                assert(slots0[s]->next_free == slots0[h]->next_free);
                                assert(false);
                            }
                        }
                    }
                }
                assert forall|k: SparseKey| #[trigger]
                    final(self).valid_key(k) <==> (pre.valid_key(k) || k == key) by {
                    if k.sparse_index as int == h {
                        assert(!pre.valid_key(k));
                        assert(self.valid_key(k) <==> k.epoch == key.epoch);
                    }
                }
            }
            key
        } else {
            let key = self.storage.insert_with_new_sparse_item(value);
            proof {
                let keys0 = pre.spec_keys();
                let slots0 = pre.spec_slots();
                let keys1 = self.spec_keys();
                let slots1 = self.spec_slots();
                let h = key.sparse_index as int;
                assert(h == slots0.len());
                assert(self.dense_keys_consistent()) by {
                    assert forall|d: int| 0 <= d < keys1.len() implies {
                        let k = #[trigger] keys1[d];
                        &&& k.sparse_index < slots1.len()
                        &&& slots1[k.sparse_index as int] is Alive
                        &&& slots1[k.sparse_index as int]->dense_index as int == d
                        &&& slots1[k.sparse_index as int]->epoch == k.epoch
                    } by {
                        if d < keys0.len() {
                            assert(keys1[d] == keys0[d]);
                            assert(slots0[keys0[d].sparse_index as int] is Alive);
                        }
                    }
                }
                assert(self.slots_consistent()) by {
                    assert forall|s: int|
                        0 <= s < slots1.len() && (#[trigger] slots1[s]) is Alive implies {
                        let e = slots1[s];
                        &&& e->dense_index < keys1.len()
                        &&& keys1[e->dense_index as int].sparse_index as int == s
                        &&& keys1[e->dense_index as int].epoch == e->epoch
                    } by {
                        if s != h {
                            assert(slots1[s] == slots0[s]);
                            let d = slots0[s]->dense_index as int;
                            assert(keys0[d].sparse_index as int == s);
                            assert(keys1[d] == keys0[d]);
                        }
                    }
                }
                assert(self.free_list_consistent()) by {
                    assert forall|s: int|
                        0 <= s < slots1.len() && (#[trigger] slots1[s]) is Free implies
                        self.free_link_ok(s) by {
                        assert(s != h);
                        assert(slots1[s] == slots0[s]);
                        if slots0[s]->next_free != MAX_SPARSE_INDEX {
                            assert(slots0[slots0[s]->next_free as int] is Free);
                        }
                    }
                }
                assert forall|k: SparseKey| #[trigger]
                    final(self).valid_key(k) <==> (pre.valid_key(k) || k == key) by {
                    if k.sparse_index as int == h {
                        assert(!pre.valid_key(k));
                        assert(self.valid_key(k) <==> k.epoch == 0);
                    }
                }
            }
            key
        }
    }

    /// Removes the element at `key` by moving the last dense element into its
    /// place: O(1), but the dense order changes. Returns the removed value,
    /// or `None` if the key is stale — a second removal with the same key
    /// yields `None` again, and every other key keeps naming its value.
    pub fn swap_remove(&mut self, key: SparseKey) -> (r: Option<T>)
        requires
            old(self).wf(),
            key.sparse_index < old(self).spec_slots().len(),
        ensures
            final(self).wf(),
            r is Some <==> old(self).valid_key(key),
            match r {
                Some(v) => {
                    &&& v == old(self).spec_values()[old(self).key_index(key)]
                    &&& final(self).spec_values() == old(self).spec_values().update(
                        old(self).key_index(key),
                        old(self).spec_values().last(),
                    ).drop_last()
                    &&& final(self).spec_keys() == old(self).spec_keys().update(
                        old(self).key_index(key),
                        old(self).spec_keys().last(),
                    ).drop_last()
                    &&& final(self).spec_slots().len() == old(self).spec_slots().len()
                    &&& forall|k: SparseKey| #[trigger]
                        final(self).valid_key(k) ==> final(self).key_index(k) == (if old(self).key_index(k) == old(self).spec_values().len() - 1 {
                            old(self).key_index(key)
                        } else {
                            old(self).key_index(k)
                        })
                    &&& forall|s: int|
                        0 <= s < old(self).spec_slots().len() && (#[trigger] old(self).spec_slots()[s]) is Free ==> final(self).spec_slots()[s] == old(self).spec_slots()[s]
                    &&& final(self).spec_slots()[key.sparse_index as int] is Free
                    &&& final(self).spec_slots()[key.sparse_index as int]->next_epoch
                        == epoch_successor(key.epoch)
                    &&& final(self).spec_free_head() == (if key.epoch < MAX_EPOCH {
                        key.sparse_index
                    } else {
                        old(self).spec_free_head()
                    })
                },
                None => *final(self) == *old(self),
            },
            !final(self).valid_key(key),
            forall|k: SparseKey|
                #![trigger old(self).valid_key(k)]
                #![trigger final(self).valid_key(k)]
                final(self).valid_key(k) <==> (old(self).valid_key(k) && k != key),
            forall|k: SparseKey| #[trigger]
                final(self).valid_key(k) ==> final(self).spec_get(k) == old(self).spec_get(k),
    {
        let ghost pre = *old(self);
        let entry = self.storage.sparse_entry(key.sparse_index);
        if entry.is_alive() && entry.epoch() == key.epoch {
            let dense_index = entry.dense_index();
            let last = self.storage.get_dense_len() - 1;
            proof {
                assert(pre.spec_keys()[dense_index as int].sparse_index as int == key.sparse_index
                    as int);
                assert(pre.spec_keys()[dense_index as int] == key);
            }
            self.swap_dense_positions(dense_index, last);
            let ghost mid = *self;
            proof {
                assert(mid.spec_keys().last() == key);
            }
            let value = self.remove_last();
            proof {
                assert(final(self).spec_values() =~= pre.spec_values().update(
                    dense_index as int,
                    pre.spec_values().last(),
                ).drop_last());
                assert(final(self).spec_keys() =~= pre.spec_keys().update(
                    dense_index as int,
                    pre.spec_keys().last(),
                ).drop_last());
                assert forall|k: SparseKey| #[trigger]
                    final(self).valid_key(k) implies final(self).spec_get(k) == pre.spec_get(k)
                    && final(self).key_index(k) == (if pre.key_index(k) == pre.spec_values().len()
                    - 1 {
                    pre.key_index(key)
                } else {
                    pre.key_index(k)
                }) by {
                    assert(mid.valid_key(k) && k != key);
                    assert(pre.valid_key(k));
                    assert(final(self).key_index(k) == mid.key_index(k));
                    assert(final(self).key_index(k) < final(self).spec_keys().len());
                    if pre.key_index(k) == dense_index as int {
                        assert(pre.spec_keys()[pre.key_index(k)].sparse_index as int
                            == k.sparse_index as int);
                        assert(pre.spec_keys()[pre.key_index(k)].epoch == k.epoch);
                        assert(k == key);
                        assert(false);
                    }
                }
            }
            Some(value)
        } else {
            None
        }
    }

    /// Removes the element at `key`, shifting every later dense element one
    /// position left: O(n), but the relative order of all remaining elements
    /// is kept. Returns the removed value, or `None` if the key is stale — a
    /// second removal with the same key yields `None` again, and every other
    /// key keeps naming its value.
    pub fn remove(&mut self, key: SparseKey) -> (r: Option<T>)
        requires
            old(self).wf(),
            key.sparse_index < old(self).spec_slots().len(),
        ensures
            final(self).wf(),
            r is Some <==> old(self).valid_key(key),
            match r {
                Some(v) => {
                    &&& v == old(self).spec_values()[old(self).key_index(key)]
                    &&& final(self).spec_values() == old(self).spec_values().remove(
                        old(self).key_index(key),
                    )
                    &&& final(self).spec_keys() == old(self).spec_keys().remove(
                        old(self).key_index(key),
                    )
                    &&& final(self).spec_slots().len() == old(self).spec_slots().len()
                    &&& forall|k: SparseKey| #[trigger]
                        final(self).valid_key(k) ==> final(self).key_index(k) == (if old(self).key_index(k) < old(self).key_index(key) {
                            old(self).key_index(k)
                        } else {
                            old(self).key_index(k) - 1
                        })
                    &&& forall|s: int|
                        0 <= s < old(self).spec_slots().len() && (#[trigger] old(self).spec_slots()[s]) is Free ==> final(self).spec_slots()[s] == old(self).spec_slots()[s]
                    &&& final(self).spec_slots()[key.sparse_index as int] is Free
                    &&& final(self).spec_slots()[key.sparse_index as int]->next_epoch
                        == epoch_successor(key.epoch)
                    &&& final(self).spec_free_head() == (if key.epoch < MAX_EPOCH {
                        key.sparse_index
                    } else {
                        old(self).spec_free_head()
                    })
                },
                None => *final(self) == *old(self),
            },
            !final(self).valid_key(key),
            forall|k: SparseKey|
                #![trigger old(self).valid_key(k)]
                #![trigger final(self).valid_key(k)]
                final(self).valid_key(k) <==> (old(self).valid_key(k) && k != key),
            forall|k: SparseKey| #[trigger]
                final(self).valid_key(k) ==> final(self).spec_get(k) == old(self).spec_get(k),
    {
        let ghost pre = *old(self);
        let entry = self.storage.sparse_entry(key.sparse_index);
        if entry.is_alive() && entry.epoch() == key.epoch {
            let dense_index = entry.dense_index();
            let last = self.storage.get_dense_len() - 1;
            proof {
                assert(pre.spec_keys()[dense_index as int].sparse_index as int == key.sparse_index
                    as int);
                assert(pre.spec_keys()[dense_index as int] == key);
            }
            // Bubble the doomed element to the end with adjacent swaps; each
            // swap repoints the two rows involved, so the set stays
            // well-formed at every step and everything after the element
            // shifts one position left.
            let mut i = dense_index;
            while i < last
                invariant
                    self.wf(),
                    dense_index <= i <= last,
                    last == self.spec_values().len() - 1,
                    self.spec_values().len() == pre.spec_values().len(),
                    self.spec_keys().len() == pre.spec_keys().len(),
                    self.spec_free_head() == pre.spec_free_head(),
                    self.spec_slots().len() == pre.spec_slots().len(),
                    forall|s: int|
                        0 <= s < pre.spec_slots().len() && (#[trigger] pre.spec_slots()[s])
                            is Free ==> self.spec_slots()[s] == pre.spec_slots()[s],
                    forall|p: int| #![trigger self.spec_values()[p]]
                        0 <= p < dense_index ==> self.spec_values()[p] == pre.spec_values()[p],
                    forall|p: int| #![trigger self.spec_keys()[p]]
                        0 <= p < dense_index ==> self.spec_keys()[p] == pre.spec_keys()[p],
                    forall|p: int| #![trigger self.spec_values()[p]]
                        dense_index <= p < i ==> self.spec_values()[p] == pre.spec_values()[p + 1],
                    forall|p: int| #![trigger self.spec_keys()[p]]
                        dense_index <= p < i ==> self.spec_keys()[p] == pre.spec_keys()[p + 1],
                    self.spec_values()[i as int] == pre.spec_values()[dense_index as int],
                    self.spec_keys()[i as int] == pre.spec_keys()[dense_index as int],
                    forall|p: int| #![trigger self.spec_values()[p]]
                        i < p < self.spec_values().len() ==> self.spec_values()[p]
                            == pre.spec_values()[p],
                    forall|p: int| #![trigger self.spec_keys()[p]]
                        i < p < self.spec_keys().len() ==> self.spec_keys()[p]
                            == pre.spec_keys()[p],
                    forall|k: SparseKey| #[trigger] self.valid_key(k) == pre.valid_key(k),
                    forall|k: SparseKey| #[trigger]
                        pre.valid_key(k) ==> self.spec_values()[self.key_index(k)]
                            == pre.spec_values()[pre.key_index(k)],
                    forall|k: SparseKey| #[trigger]
                        pre.valid_key(k) ==> self.key_index(k) == (if pre.key_index(k)
                            < dense_index as int || pre.key_index(k) > i as int {
                            pre.key_index(k)
                        } else if pre.key_index(k) == dense_index as int {
                            i as int
                        } else {
                            pre.key_index(k) - 1
                        }),
                decreases last - i,
            {
                let ghost cur = *self;
                self.swap_dense_positions(i, i + 1);
                proof {
                    assert forall|k: SparseKey| #[trigger] pre.valid_key(k) implies
                        self.spec_values()[self.key_index(k)] == pre.spec_values()[pre.key_index(
                        k,
                    )] && self.key_index(k) == (if pre.key_index(k) < dense_index as int
                        || pre.key_index(k) > i + 1 {
                        pre.key_index(k)
                    } else if pre.key_index(k) == dense_index as int {
                        i + 1
                    } else {
                        pre.key_index(k) - 1
                    }) by {
                        assert(cur.valid_key(k));
                        assert(self.spec_values()[self.key_index(k)] == cur.spec_values()[
                            cur.key_index(k)]);
                    }
                }
                i = i + 1;
            }
            let ghost mid = *self;
            proof {
                assert(mid.spec_keys().last() == key);
            }
            let value = self.remove_last();
            proof {
                assert(final(self).spec_values() =~= pre.spec_values().remove(dense_index as int));
                assert(final(self).spec_keys() =~= pre.spec_keys().remove(dense_index as int));
                assert forall|k: SparseKey| #[trigger]
                    final(self).valid_key(k) implies final(self).spec_get(k) == pre.spec_get(k)
                    && final(self).key_index(k) == (if pre.key_index(k) < dense_index as int {
                    pre.key_index(k)
                } else {
                    pre.key_index(k) - 1
                }) by {
                    assert(mid.valid_key(k) && k != key);
                    assert(pre.valid_key(k));
                    assert(final(self).key_index(k) == mid.key_index(k));
                    assert(final(self).key_index(k) < final(self).spec_keys().len());
                    if pre.key_index(k) == dense_index as int {
                        assert(pre.spec_keys()[pre.key_index(k)].sparse_index as int
                            == k.sparse_index as int);
                        assert(pre.spec_keys()[pre.key_index(k)].epoch == k.epoch);
                        assert(k == key);
                        assert(false);
                    }
                }
            }
            Some(value)
        } else {
            None
        }
    }

    /// Removes every element and frees every alive row in dense order,
    /// advancing each row's epoch, so all previously issued keys become
    /// stale.
    pub fn clear(&mut self)
        requires
            old(self).wf(),
        ensures
            final(self).wf(),
            final(self).spec_values().len() == 0,
            final(self).spec_keys().len() == 0,
            final(self).spec_slots().len() == old(self).spec_slots().len(),
            forall|k: SparseKey| !final(self).valid_key(k),
            forall|s: int|
                0 <= s < old(self).spec_slots().len() && (#[trigger] old(self).spec_slots()[s])
                    is Alive ==> final(self).spec_slots()[s] is Free && final(self).spec_slots()[s]->next_epoch == epoch_successor(old(self).spec_slots()[s]->epoch),
            forall|s: int|
                0 <= s < old(self).spec_slots().len() && (#[trigger] old(self).spec_slots()[s])
                    is Free ==> final(self).spec_slots()[s] == old(self).spec_slots()[s],
    {
        let ghost pre = *old(self);
        let len = self.storage.get_dense_len();
        for i in 0..len
            invariant
                pre.wf(),
                len == pre.spec_values().len(),
                self.spec_values() == pre.spec_values(),
                self.spec_keys() == pre.spec_keys(),
                self.spec_slots().len() == pre.spec_slots().len(),
                self.free_list_consistent(),
                forall|s: int|
                    0 <= s < pre.spec_slots().len() && (#[trigger] pre.spec_slots()[s]) is Free
                        ==> self.spec_slots()[s] == pre.spec_slots()[s],
                forall|s: int|
                    0 <= s < pre.spec_slots().len() && (#[trigger] pre.spec_slots()[s]) is Alive
                        && pre.spec_slots()[s]->dense_index >= i ==> self.spec_slots()[s]
                        == pre.spec_slots()[s],
                forall|s: int|
                    0 <= s < pre.spec_slots().len() && (#[trigger] pre.spec_slots()[s]) is Alive
                        && pre.spec_slots()[s]->dense_index < i ==> self.spec_slots()[s] is Free
                        && self.spec_slots()[s]->next_epoch == epoch_successor(
                        pre.spec_slots()[s]->epoch,
                    ),
        {
            let key = self.storage.dense_key(i);
            let ghost cur = *self;
            proof {
                assert(pre.spec_slots()[key.sparse_index as int] is Alive);
                assert(pre.spec_slots()[key.sparse_index as int]->dense_index as int == i as int);
            }
            self.mark_as_free(key);
            proof {
                Self::lemma_freeing_alive_row_keeps_free_list(cur, *self, key);
                assert forall|s: int|
                    0 <= s < pre.spec_slots().len() && (#[trigger] pre.spec_slots()[s]) is Alive
                        && pre.spec_slots()[s]->dense_index >= i + 1 implies self.spec_slots()[s]
                    == pre.spec_slots()[s] by {
                    if s != key.sparse_index as int {
                        assert(self.spec_slots()[s] == cur.spec_slots()[s]);
                    }
                }
            }
        }
        self.storage.clear_dense();
        proof {
            assert forall|s: int|
                0 <= s < self.spec_slots().len() implies !((#[trigger] self.spec_slots()[s])
                is Alive) by {
                if self.spec_slots()[s] is Alive {
                    assert(pre.spec_slots()[s] is Alive);
                    assert(pre.spec_slots()[s]->dense_index < pre.spec_keys().len());
                }
            }
        }
    }

    /// Exchanges the dense positions of the elements at two alive rows; each
    /// key keeps resolving to the value it named, only the iteration order
    /// changes. Swapping a key with itself is a no-op. Both rows must be
    /// alive — swapping a dead row has no sane outcome.
    pub fn swap(&mut self, key1: SparseKey, key2: SparseKey)
        requires
            old(self).wf(),
            key1.sparse_index < old(self).spec_slots().len(),
            key2.sparse_index < old(self).spec_slots().len(),
            old(self).spec_slots()[key1.sparse_index as int] is Alive,
            old(self).spec_slots()[key2.sparse_index as int] is Alive,
        ensures
            final(self).wf(),
            final(self).spec_values() == old(self).spec_values().update(
                old(self).key_index(key1),
                old(self).spec_values()[old(self).key_index(key2)],
            ).update(old(self).key_index(key2), old(self).spec_values()[old(self).key_index(key1)]),
            final(self).spec_keys() == old(self).spec_keys().update(
                old(self).key_index(key1),
                old(self).spec_keys()[old(self).key_index(key2)],
            ).update(old(self).key_index(key2), old(self).spec_keys()[old(self).key_index(key1)]),
            final(self).spec_free_head() == old(self).spec_free_head(),
            final(self).spec_slots().len() == old(self).spec_slots().len(),
            forall|s: int|
                0 <= s < old(self).spec_slots().len() && (#[trigger] old(self).spec_slots()[s])
                    is Free ==> final(self).spec_slots()[s] == old(self).spec_slots()[s],
            final(self).key_index(key1) == old(self).key_index(key2),
            final(self).key_index(key2) == old(self).key_index(key1),
            forall|k: SparseKey|
                #![trigger old(self).valid_key(k)]
                #![trigger final(self).valid_key(k)]
                final(self).valid_key(k) == old(self).valid_key(k),
            forall|k: SparseKey| #[trigger]
                old(self).valid_key(k) ==> final(self).spec_get(k) == old(self).spec_get(k),
    {
        let entry1 = self.storage.sparse_entry(key1.sparse_index);
        let entry2 = self.storage.sparse_entry(key2.sparse_index);
        let dense_index1 = entry1.dense_index();
        let dense_index2 = entry2.dense_index();
        self.swap_dense_positions(dense_index1, dense_index2);
    }

    /// Reverses the dense range `[a, b)` in place, swapping pairs from the
    /// outside in. Each swap repoints the two rows involved, so the set stays
    /// well-formed throughout and every key keeps naming its value.
    fn reverse_dense_range(&mut self, a: usize, b: usize)
        requires
            old(self).wf(),
            a <= b,
            b <= old(self).spec_values().len(),
        ensures
            final(self).wf(),
            final(self).spec_values().len() == old(self).spec_values().len(),
            final(self).spec_keys().len() == old(self).spec_keys().len(),
            forall|q: int| #![trigger final(self).spec_values()[q]]
                0 <= q < old(self).spec_values().len() && !(a <= q < b) ==> final(self).spec_values()[q] == old(self).spec_values()[q],
            forall|q: int| #![trigger final(self).spec_keys()[q]]
                0 <= q < old(self).spec_keys().len() && !(a <= q < b) ==> final(self).spec_keys()[q] == old(self).spec_keys()[q],
            forall|q: int| #![trigger final(self).spec_values()[q]]
                a <= q < b ==> final(self).spec_values()[q] == old(self).spec_values()[a + b - 1
                    - q],
            forall|q: int| #![trigger final(self).spec_keys()[q]]
                a <= q < b ==> final(self).spec_keys()[q] == old(self).spec_keys()[a + b - 1 - q],
            final(self).spec_free_head() == old(self).spec_free_head(),
            final(self).spec_slots().len() == old(self).spec_slots().len(),
            forall|s: int|
                0 <= s < old(self).spec_slots().len() && (#[trigger] old(self).spec_slots()[s])
                    is Free ==> final(self).spec_slots()[s] == old(self).spec_slots()[s],
            forall|k: SparseKey|
                #![trigger old(self).valid_key(k)]
                #![trigger final(self).valid_key(k)]
                final(self).valid_key(k) == old(self).valid_key(k),
            forall|k: SparseKey| #[trigger]
                old(self).valid_key(k) ==> final(self).spec_values()[final(self).key_index(k)]
                    == old(self).spec_values()[old(self).key_index(k)],
    {
        let ghost pre = *old(self);
        let half = (b - a) / 2;
        for i in 0..half
            invariant
                self.wf(),
                a <= b <= self.spec_values().len(),
                half == (b - a) / 2,
                self.spec_values().len() == pre.spec_values().len(),
                self.spec_keys().len() == pre.spec_keys().len(),
                self.spec_free_head() == pre.spec_free_head(),
                self.spec_slots().len() == pre.spec_slots().len(),
                forall|s: int|
                    0 <= s < pre.spec_slots().len() && (#[trigger] pre.spec_slots()[s]) is Free
                        ==> self.spec_slots()[s] == pre.spec_slots()[s],
                forall|q: int| #![trigger self.spec_values()[q]]
                    0 <= q < pre.spec_values().len() && !(a <= q < a + i) && !(b - i <= q < b)
                        ==> self.spec_values()[q] == pre.spec_values()[q],
                forall|q: int| #![trigger self.spec_keys()[q]]
                    0 <= q < pre.spec_keys().len() && !(a <= q < a + i) && !(b - i <= q < b)
                        ==> self.spec_keys()[q] == pre.spec_keys()[q],
                forall|q: int| #![trigger self.spec_values()[q]]
                    (a <= q < a + i || b - i <= q < b) ==> self.spec_values()[q]
                        == pre.spec_values()[a + b - 1 - q],
                forall|q: int| #![trigger self.spec_keys()[q]]
                    (a <= q < a + i || b - i <= q < b) ==> self.spec_keys()[q]
                        == pre.spec_keys()[a + b - 1 - q],
                forall|k: SparseKey| #[trigger] self.valid_key(k) == pre.valid_key(k),
                forall|k: SparseKey| #[trigger]
                    pre.valid_key(k) ==> self.spec_values()[self.key_index(k)]
                        == pre.spec_values()[pre.key_index(k)],
        {
            let ghost cur = *self;
            self.swap_dense_positions(a + i, b - 1 - i);
            proof {
                assert forall|k: SparseKey| #[trigger] pre.valid_key(k) implies
                    self.spec_values()[self.key_index(k)] == pre.spec_values()[pre.key_index(
                    k,
                )] by {
                    assert(cur.valid_key(k));
                    assert(self.spec_values()[self.key_index(k)] == cur.spec_values()[cur.key_index(
                        k,
                    )]);
                }
            }
        }
        proof {
            assert forall|q: int| a <= q < b implies self.spec_values()[q] == pre.spec_values()[a
                + b - 1 - q] && self.spec_keys()[q] == pre.spec_keys()[a + b - 1 - q] by {
                if a + half <= q < b - half {
                    assert(a + b - 1 - q == q);
                }
            }
        }
    }

    /// Rotates the dense range `[start_index, end_index)` left by `mid`
    /// positions, repointing every affected row so each key keeps naming the
    /// value it named before; only dense positions change. Rotating by the
    /// whole range length restores the original order.
    pub fn rotate_left(&mut self, start_index: usize, end_index: usize, mid: usize)
        requires
            old(self).wf(),
            start_index < end_index,
            end_index <= old(self).spec_values().len(),
            mid <= end_index - start_index,
        ensures
            final(self).wf(),
            final(self).spec_values() == seq_rotated_left(
                old(self).spec_values(),
                start_index as int,
                end_index as int,
                mid as int,
            ),
            final(self).spec_keys() == seq_rotated_left(
                old(self).spec_keys(),
                start_index as int,
                end_index as int,
                mid as int,
            ),
            final(self).spec_free_head() == old(self).spec_free_head(),
            final(self).spec_slots().len() == old(self).spec_slots().len(),
            forall|s: int|
                0 <= s < old(self).spec_slots().len() && (#[trigger] old(self).spec_slots()[s])
                    is Free ==> final(self).spec_slots()[s] == old(self).spec_slots()[s],
            forall|k: SparseKey|
                #![trigger old(self).valid_key(k)]
                #![trigger final(self).valid_key(k)]
                final(self).valid_key(k) == old(self).valid_key(k),
            forall|k: SparseKey| #[trigger]
                old(self).valid_key(k) ==> final(self).spec_get(k) == old(self).spec_get(k),
    {
        let ghost s0 = *old(self);
        self.reverse_dense_range(start_index, start_index + mid);
        let ghost s1 = *self;
        self.reverse_dense_range(start_index + mid, end_index);
        let ghost s2 = *self;
        self.reverse_dense_range(start_index, end_index);
        proof {
            let a = start_index as int;
            let e = end_index as int;
            let m = mid as int;
            assert forall|q: int| 0 <= q < self.spec_values().len() implies {
                &&& self.spec_values()[q] == seq_rotated_left(s0.spec_values(), a, e, m)[q]
                &&& self.spec_keys()[q] == seq_rotated_left(s0.spec_keys(), a, e, m)[q]
            } by {
                if q < a || q >= e {
                    assert(self.spec_values()[q] == s2.spec_values()[q]);
                    assert(s2.spec_values()[q] == s1.spec_values()[q]);
                    assert(s1.spec_values()[q] == s0.spec_values()[q]);
                    assert(self.spec_keys()[q] == s2.spec_keys()[q]);
                    assert(s2.spec_keys()[q] == s1.spec_keys()[q]);
                    assert(s1.spec_keys()[q] == s0.spec_keys()[q]);
                } else {
                    let w = a + e - 1 - q;
                    assert(self.spec_values()[q] == s2.spec_values()[w]);
                    assert(self.spec_keys()[q] == s2.spec_keys()[w]);
                    if w < a + m {
                        assert(s2.spec_values()[w] == s1.spec_values()[w]);
                        assert(s1.spec_values()[w] == s0.spec_values()[a + (a + m) - 1 - w]);
                        assert(s2.spec_keys()[w] == s1.spec_keys()[w]);
                        assert(s1.spec_keys()[w] == s0.spec_keys()[a + (a + m) - 1 - w]);
                    } else {
                        assert(s2.spec_values()[w] == s1.spec_values()[(a + m) + e - 1 - w]);
                        assert(s1.spec_values()[(a + m) + e - 1 - w] == s0.spec_values()[(a + m) + e
                            - 1 - w]);
                        assert(s2.spec_keys()[w] == s1.spec_keys()[(a + m) + e - 1 - w]);
                        assert(s1.spec_keys()[(a + m) + e - 1 - w] == s0.spec_keys()[(a + m) + e - 1
                            - w]);
                    }
                }
            }
            assert(self.spec_values() =~= seq_rotated_left(s0.spec_values(), a, e, m));
            assert(self.spec_keys() =~= seq_rotated_left(s0.spec_keys(), a, e, m));
            assert forall|k: SparseKey| #[trigger] s0.valid_key(k) implies self.spec_get(k)
                == s0.spec_get(k) by {
                assert(s1.valid_key(k));
                assert(s2.valid_key(k));
                assert(s1.spec_values()[s1.key_index(k)] == s0.spec_values()[s0.key_index(k)]);
                assert(s2.spec_values()[s2.key_index(k)] == s1.spec_values()[s1.key_index(k)]);
                assert(self.spec_values()[self.key_index(k)] == s2.spec_values()[s2.key_index(k)]);
            }
            assert forall|s: int|
                0 <= s < s0.spec_slots().len() && (#[trigger] s0.spec_slots()[s])
                    is Free implies self.spec_slots()[s] == s0.spec_slots()[s] by {
                assert(s1.spec_slots()[s] == s0.spec_slots()[s]);
                assert(s2.spec_slots()[s] == s1.spec_slots()[s]);
            }
            assert forall|k: SparseKey|
                #![trigger s0.valid_key(k)]
                #![trigger self.valid_key(k)]
                self.valid_key(k) == s0.valid_key(k) by {
                assert(s1.valid_key(k) == s0.valid_key(k));
                assert(s2.valid_key(k) == s1.valid_key(k));
            }
        }
    }

    /// Rotates the dense range `[start_index, end_index)` right by `k`
    /// positions, repointing every affected row so each key keeps naming the
    /// value it named before; only dense positions change. A right rotation
    /// by `k` is the left rotation by the rest of the range.
    pub fn rotate_right(&mut self, start_index: usize, end_index: usize, k: usize)
        requires
            old(self).wf(),
            start_index < end_index,
            end_index <= old(self).spec_values().len(),
            k <= end_index - start_index,
        ensures
            final(self).wf(),
            final(self).spec_values() == seq_rotated_right(
                old(self).spec_values(),
                start_index as int,
                end_index as int,
                k as int,
            ),
            final(self).spec_keys() == seq_rotated_right(
                old(self).spec_keys(),
                start_index as int,
                end_index as int,
                k as int,
            ),
            final(self).spec_free_head() == old(self).spec_free_head(),
            final(self).spec_slots().len() == old(self).spec_slots().len(),
            forall|s: int|
                0 <= s < old(self).spec_slots().len() && (#[trigger] old(self).spec_slots()[s])
                    is Free ==> final(self).spec_slots()[s] == old(self).spec_slots()[s],
            forall|k2: SparseKey|
                #![trigger old(self).valid_key(k2)]
                #![trigger final(self).valid_key(k2)]
                final(self).valid_key(k2) == old(self).valid_key(k2),
            forall|k2: SparseKey| #[trigger]
                old(self).valid_key(k2) ==> final(self).spec_get(k2) == old(self).spec_get(k2),
    {
        let mid = (end_index - start_index) - k;
        self.rotate_left(start_index, end_index, mid);
    }

    /// The key of the element at dense position `index`, if in range.
    pub fn get_key(&self, index: usize) -> (r: Option<SparseKey>)
        ensures
            match r {
                Some(k) => index < self.spec_keys().len() && k == self.spec_keys()[index as int],
                None => index >= self.spec_keys().len(),
            },
    {
        let keys = self.storage.dense_keys();
        if index < keys.len() {
            Some(keys[index])
        } else {
            None
        }
    }

    /// The key-value pairs in dense order: position `i` pairs the key at `i`
    /// with a reference to the value at `i`.
    pub fn key_values(&self) -> (r: Vec<(SparseKey, &T)>)
        requires
            self.wf(),
        ensures
            r@.len() == self.spec_keys().len(),
            forall|d: int|
                0 <= d < r@.len() ==> (#[trigger] r@[d]).0 == self.spec_keys()[d] && *r@[d].1
                    == self.spec_values()[d],
    {
        let mut result: Vec<(SparseKey, &T)> = Vec::new();
        let len = self.storage.get_dense_len();
        for i in 0..len
            invariant
                len == self.spec_keys().len(),
                self.wf(),
                result@.len() == i,
                forall|d: int|
                    0 <= d < i ==> (#[trigger] result@[d]).0 == self.spec_keys()[d]
                        && *(result@[d].1) == self.spec_values()[d],
        {
            result.push((self.storage.dense_key(i), self.storage.dense_value(i)));
        }
        result
    }
}

impl<T: Clone> Clone for SparseSet<T> {
    /// Deep, independent copy. The clone accepts exactly the keys the
    /// original accepts, at the same dense positions; every value is a clone
    /// of the value the same key names in the original. For value types whose
    /// `clone` returns its input exactly, the clone therefore resolves every
    /// key to the very same value.
    fn clone(&self) -> (res: Self)
        ensures
            res.spec_keys() == self.spec_keys(),
            res.spec_slots() == self.spec_slots(),
            res.spec_free_head() == self.spec_free_head(),
            res.spec_values().len() == self.spec_values().len(),
            forall|d: int|
                0 <= d < self.spec_values().len() ==> cloned::<T>(
                    self.spec_values()[d],
                    #[trigger] res.spec_values()[d],
                ),
            self.wf() ==> res.wf(),
            forall|k: SparseKey| res.valid_key(k) == self.valid_key(k),
            forall|k: SparseKey| #[trigger]
                self.valid_key(k) ==> res.key_index(k) == self.key_index(k),
    {
        SparseSet {
            storage: self.storage.clone(),
            next_free_sparse_entry: self.next_free_sparse_entry,
        }
    }
}

/// The range `[start, end)` of `s` rotated left by `mid` positions: the first
/// `mid` elements of the range move to its back, everything outside the range
/// stays in place. Rotating by the whole range length is the identity.
pub open spec fn seq_rotated_left<A>(s: Seq<A>, start: int, end: int, mid: int) -> Seq<A> {
    s.subrange(0, start) + s.subrange(start + mid, end) + s.subrange(start, start + mid)
        + s.subrange(end, s.len() as int)
}

/// The range `[start, end)` of `s` rotated right by `k` positions, which is
/// the same reordering as rotating left by the rest of the range.
pub open spec fn seq_rotated_right<A>(s: Seq<A>, start: int, end: int, k: int) -> Seq<A> {
    seq_rotated_left(s, start, end, end - start - k)
}

/// The dense arrays never outgrow the sparse array — and strictly so while a
/// row is free: every dense position names its own alive row, so the alive
/// rows alone are at least as many as the dense entries, and a free row is on
/// top of that.
pub proof fn lemma_dense_never_exceeds_sparse<T>(s: &SparseSet<T>)
    requires
        s.wf(),
    ensures
        s.spec_keys().len() <= s.spec_slots().len(),
        s.spec_free_head() != MAX_SPARSE_INDEX ==> s.spec_keys().len() < s.spec_slots().len(),
{
    broadcast use vstd::set_lib::group_set_properties;

    let keys = s.spec_keys();
    let slots = s.spec_slots();
    let dom = set_int_range(0, keys.len() as int);
    let f = |d: int| keys[d].sparse_index as int;
    lemma_int_range(0, keys.len() as int);
    assert(injective_on(f, dom)) by {
        assert forall|d1: int, d2: int|
            dom.contains(d1) && dom.contains(d2) && #[trigger] f(d1) == #[trigger] f(d2) implies d1
            == d2 by {
            assert(slots[keys[d1].sparse_index as int]->dense_index as int == d1);
            assert(slots[keys[d2].sparse_index as int]->dense_index as int == d2);
        }
    }
    let img = dom.map(f);
    lemma_map_size(dom, img, f);
    lemma_int_range(0, slots.len() as int);
    let full = set_int_range(0, slots.len() as int);
    if s.spec_free_head() != MAX_SPARSE_INDEX {
        let reduced = full.remove(s.spec_free_head() as int);
        assert(slots[s.spec_free_head() as int] is Free);
        assert forall|x: int| #[trigger] img.contains(x) implies reduced.contains(x) by {
            let d = choose|d: int| dom.contains(d) && f(d) == x;
            assert(slots[keys[d].sparse_index as int] is Alive);
        }
        lemma_len_subset(img, reduced);
        assert(full.contains(s.spec_free_head() as int));
        assert(reduced.len() == full.len() - 1);
    } else {
        assert forall|x: int| #[trigger] img.contains(x) implies full.contains(x) by {
            let d = choose|d: int| dom.contains(d) && f(d) == x;
            assert(slots[keys[d].sparse_index as int] is Alive);
        }
        lemma_len_subset(img, full);
    }
}

/// A key the set does not accept reads as absent: a lookup yields `None`.
/// Together with the removal contracts — which make the removed key invalid —
/// this gives idempotent absence: once a key has been removed, every further
/// lookup or removal with it yields `None` again.
pub proof fn lemma_stale_key_is_absent<T>(s: &SparseSet<T>, key: SparseKey)
    requires
        !s.valid_key(key),
    ensures
        s.spec_get(key) is None,
{
}

/// Ordered removal keeps the relative order of all remaining elements: every
/// element before the removed position keeps its place, and every element
/// after it moves exactly one place left, so any two survivors stay in the
/// order they had.
pub proof fn lemma_ordered_remove_preserves_order<A>(s: Seq<A>, i: int)
    requires
        0 <= i < s.len(),
    ensures
        s.remove(i).len() == s.len() - 1,
        forall|j: int| 0 <= j < i ==> #[trigger] s.remove(i)[j] == s[j],
        forall|j: int| i <= j < s.len() - 1 ==> #[trigger] s.remove(i)[j] == s[j + 1],
{
}

/// A key whose row is free — as every key a removal has just invalidated is —
/// can never come back from the next insertion: if the row is reissued it
/// carries the advanced epoch stored in it, and any other source of a key
/// names a different row.
pub proof fn lemma_next_key_avoids_freed_key<T>(s: &SparseSet<T>, key: SparseKey)
    requires
        s.wf(),
        key.sparse_index < s.spec_slots().len(),
        s.spec_slots()[key.sparse_index as int] is Free,
        s.spec_free_head() == key.sparse_index ==> s.spec_slots()[key.sparse_index
            as int]->next_epoch != key.epoch,
    ensures
        s.peek_key() != key,
        !s.valid_key(key),
{
    s.storage.lemma_lens_bounded();
    if s.spec_free_head() == MAX_SPARSE_INDEX {
        assert(s.peek_key().sparse_index as int == s.spec_slots().len());
    }
}

/// Rotating a range left by `mid` and then left again by the rest of the
/// range restores the original order exactly.
pub proof fn lemma_rotate_left_round_trip<A>(s: Seq<A>, start: int, end: int, mid: int)
    requires
        0 <= start < end <= s.len(),
        0 <= mid <= end - start,
    ensures
        seq_rotated_left(seq_rotated_left(s, start, end, mid), start, end, (end - start) - mid)
            == s,
{
    assert(seq_rotated_left(seq_rotated_left(s, start, end, mid), start, end, (end - start) - mid)
        =~= s);
}

} // verus!
