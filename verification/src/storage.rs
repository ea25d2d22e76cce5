use vstd::prelude::*;
use vstd::pervasive::VecAdditionalExecFns;
use vstd::pervasive::cloned;

use crate::sparse_entry::SparseEntry;
use crate::sparse_key::SparseKey;

verus! {

/// Backing storage of a sparse set: two parallel dense arrays (values and the
/// keys that name them, always of equal length and in the same order) and the
/// sparse array of rows. The storage moves raw elements and manages capacity;
/// it never interprets epochs or decides which row to use — that is the
/// container's job.
pub(crate) struct SparseArrayStorage<T> {
    /// The values, packed contiguously in dense order.
    dense_values: Vec<T>,
    /// For each dense position, the key that names the value there.
    dense_keys: Vec<SparseKey>,
    /// One row per `sparse_index` ever allocated; rows are never removed.
    sparse: Vec<SparseEntry>,
}

impl<T> SparseArrayStorage<T> {
    pub closed spec fn spec_dense_values(&self) -> Seq<T> {
        self.dense_values@
    }

    pub closed spec fn spec_dense_keys(&self) -> Seq<SparseKey> {
        self.dense_keys@
    }

    pub closed spec fn spec_sparse(&self) -> Seq<SparseEntry> {
        self.sparse@
    }

    /// Empty storage; allocates nothing.
    pub(crate) fn new() -> (r: Self)
        ensures
            r.spec_dense_values() == Seq::<T>::empty(),
            r.spec_dense_keys() == Seq::<SparseKey>::empty(),
            r.spec_sparse() == Seq::<SparseEntry>::empty(),
    {
        SparseArrayStorage { dense_values: Vec::new(), dense_keys: Vec::new(), sparse: Vec::new() }
    }

    /// Empty storage with room reserved for `capacity` dense and `capacity`
    /// sparse rows.
    pub(crate) fn with_capacity(capacity: usize) -> (r: Self)
        ensures
            r.spec_dense_values() == Seq::<T>::empty(),
            r.spec_dense_keys() == Seq::<SparseKey>::empty(),
            r.spec_sparse() == Seq::<SparseEntry>::empty(),
    {
        SparseArrayStorage {
            dense_values: Vec::with_capacity(capacity),
            dense_keys: Vec::with_capacity(capacity),
            sparse: Vec::with_capacity(capacity),
        }
    }

    pub(crate) fn get_dense_len(&self) -> (r: usize)
        ensures
            r == self.spec_dense_values().len(),
    {
        self.dense_values.len()
    }

    pub(crate) fn get_sparse_len(&self) -> (r: usize)
        ensures
            r == self.spec_sparse().len(),
    {
        self.sparse.len()
    }

    pub(crate) fn dense_values(&self) -> (r: &Vec<T>)
        ensures
            r@ == self.spec_dense_values(),
    {
        &self.dense_values
    }

    /// Mutable access to the dense value array. The caller may rearrange or
    /// replace the values freely; the dense keys and the sparse rows are
    /// untouched, so consistency is preserved exactly when the length is.
    pub(crate) fn dense_values_mut(&mut self) -> (r: &mut Vec<T>)
        ensures
            r@ == old(self).spec_dense_values(),
            final(self).spec_dense_values() == final(r)@,
            final(self).spec_dense_keys() == old(self).spec_dense_keys(),
            final(self).spec_sparse() == old(self).spec_sparse(),
    {
        &mut self.dense_values
    }

    pub(crate) fn dense_keys(&self) -> (r: &Vec<SparseKey>)
        ensures
            r@ == self.spec_dense_keys(),
    {
        &self.dense_keys
    }

    pub(crate) fn dense_value(&self, index: usize) -> (r: &T)
        requires
            index < self.spec_dense_values().len(),
        ensures
            *r == self.spec_dense_values()[index as int],
    {
        &self.dense_values[index]
    }

    /// Mutable access to one dense value; everything else is untouched.
    pub(crate) fn dense_value_mut(&mut self, index: usize) -> (r: &mut T)
        requires
            index < old(self).spec_dense_values().len(),
        ensures
            *r == old(self).spec_dense_values()[index as int],
            final(self).spec_dense_values() == old(self).spec_dense_values().update(
                index as int,
                *final(r),
            ),
            final(self).spec_dense_keys() == old(self).spec_dense_keys(),
            final(self).spec_sparse() == old(self).spec_sparse(),
    {
        &mut self.dense_values[index]
    }

    pub(crate) fn dense_key(&self, index: usize) -> (r: SparseKey)
        requires
            index < self.spec_dense_keys().len(),
        ensures
            r == self.spec_dense_keys()[index as int],
    {
        self.dense_keys[index]
    }

    pub(crate) fn sparse_entry(&self, sparse_index: usize) -> (r: SparseEntry)
        requires
            sparse_index < self.spec_sparse().len(),
        ensures
            r == self.spec_sparse()[sparse_index as int],
    {
        self.sparse[sparse_index]
    }

    pub(crate) fn set_sparse_entry(&mut self, sparse_index: usize, entry: SparseEntry)
        requires
            sparse_index < old(self).spec_sparse().len(),
        ensures
            final(self).spec_sparse() == old(self).spec_sparse().update(sparse_index as int, entry),
            final(self).spec_dense_values() == old(self).spec_dense_values(),
            final(self).spec_dense_keys() == old(self).spec_dense_keys(),
    {
        self.sparse.set(sparse_index, entry);
    }

    /// Appends a value together with a brand-new sparse row: the key names the
    /// row just past the current end of the sparse array, at epoch zero.
    pub(crate) fn insert_with_new_sparse_item(&mut self, value: T) -> (key: SparseKey)
        requires
            old(self).spec_sparse().len() < usize::MAX,
        ensures
            key == (SparseKey {
                sparse_index: old(self).spec_sparse().len() as usize,
                epoch: 0,
            }),
            final(self).spec_dense_values() == old(self).spec_dense_values().push(value),
            final(self).spec_dense_keys() == old(self).spec_dense_keys().push(key),
            final(self).spec_sparse() == old(self).spec_sparse().push(
                SparseEntry::Alive {
                    dense_index: old(self).spec_dense_values().len() as usize,
                    epoch: 0,
                },
            ),
    {
        let key = SparseKey { sparse_index: self.sparse.len(), epoch: 0 };
        let entry = SparseEntry::new_alive(self.dense_values.len(), 0);
        self.dense_values.push(value);
        self.dense_keys.push(key);
        self.sparse.push(entry);
        key
    }

    /// Appends a value under an already-allocated sparse row: the row is
    /// repointed at the new dense position, alive at the key's epoch.
    pub(crate) fn insert_with_existing_sparse_item(&mut self, key: SparseKey, value: T)
        requires
            key.sparse_index < old(self).spec_sparse().len(),
        ensures
            final(self).spec_dense_values() == old(self).spec_dense_values().push(value),
            final(self).spec_dense_keys() == old(self).spec_dense_keys().push(key),
            final(self).spec_sparse() == old(self).spec_sparse().update(
                key.sparse_index as int,
                SparseEntry::Alive {
                    dense_index: old(self).spec_dense_values().len() as usize,
                    epoch: key.epoch,
                },
            ),
    {
        let entry = SparseEntry::new_alive(self.dense_values.len(), key.epoch);
        self.dense_values.push(value);
        self.dense_keys.push(key);
        self.sparse.set(key.sparse_index, entry);
    }

    /// Exchanges the dense entries (value and key) at positions `i` and `j`.
    /// The sparse rows are untouched; repointing them is the caller's job.
    pub(crate) fn swap_dense(&mut self, i: usize, j: usize)
        requires
            old(self).spec_dense_values().len() == old(self).spec_dense_keys().len(),
            i < old(self).spec_dense_values().len(),
            j < old(self).spec_dense_values().len(),
        ensures
            final(self).spec_dense_values() == old(self).spec_dense_values().update(
                i as int,
                old(self).spec_dense_values()[j as int],
            ).update(j as int, old(self).spec_dense_values()[i as int]),
            final(self).spec_dense_keys() == old(self).spec_dense_keys().update(
                i as int,
                old(self).spec_dense_keys()[j as int],
            ).update(j as int, old(self).spec_dense_keys()[i as int]),
            final(self).spec_sparse() == old(self).spec_sparse(),
    {
        let ghost orig = self.dense_values@;
        if i != j {
            // Swap the two values in constant time, carrying one of them (or
            // the detached last element) through a scratch slot.
            let last_index = self.dense_values.len() - 1;
            let mut carried = self.dense_values.pop().unwrap();
            if i == last_index {
                self.dense_values.set_and_swap(j, &mut carried);
                self.dense_values.push(carried);
            } else if j == last_index {
                self.dense_values.set_and_swap(i, &mut carried);
                self.dense_values.push(carried);
            } else {
                self.dense_values.set_and_swap(i, &mut carried);
                self.dense_values.set_and_swap(j, &mut carried);
                self.dense_values.set_and_swap(i, &mut carried);
                self.dense_values.push(carried);
            }
            proof {
                assert(self.dense_values@ =~= orig.update(i as int, orig[j as int]).update(
                    j as int,
                    orig[i as int],
                ));
            }
        } else {
            proof {
                assert(self.dense_values@ =~= orig.update(i as int, orig[j as int]).update(
                    j as int,
                    orig[i as int],
                ));
            }
        }
        let ghost orig_keys = self.dense_keys@;
        let key_i = self.dense_keys[i];
        let key_j = self.dense_keys[j];
        self.dense_keys.set(i, key_j);
        self.dense_keys.set(j, key_i);
        proof {
            assert(self.dense_keys@ =~= orig_keys.update(i as int, orig_keys[j as int]).update(
                j as int,
                orig_keys[i as int],
            ));
        }
    }

    /// Drops every dense value and key; the sparse rows stay as they are.
    /// Marking the dropped rows free is the caller's job — the storage knows
    /// nothing of epochs or the free list.
    pub(crate) fn clear_dense(&mut self)
        ensures
            final(self).spec_dense_values() == Seq::<T>::empty(),
            final(self).spec_dense_keys() == Seq::<SparseKey>::empty(),
            final(self).spec_sparse() == old(self).spec_sparse(),
    {
        self.dense_values.clear();
        self.dense_keys.clear();
    }

    /// View lengths always fit the machine: each array is a real vector.
    pub(crate) proof fn lemma_lens_bounded(&self)
        ensures
            self.spec_dense_values().len() <= usize::MAX,
            self.spec_dense_keys().len() <= usize::MAX,
            self.spec_sparse().len() <= usize::MAX,
    {
        broadcast use vstd::std_specs::vec::axiom_spec_len;

        assert(vstd::std_specs::vec::spec_vec_len(&self.dense_values)
            == self.dense_values@.len());
        assert(vstd::std_specs::vec::spec_vec_len(&self.dense_keys) == self.dense_keys@.len());
        assert(vstd::std_specs::vec::spec_vec_len(&self.sparse) == self.sparse@.len());
    }

    /// Removes and returns the last dense value, dropping its key with it.
    pub(crate) fn pop_dense(&mut self) -> (r: T)
        requires
            old(self).spec_dense_values().len() > 0,
            old(self).spec_dense_keys().len() == old(self).spec_dense_values().len(),
        ensures
            r == old(self).spec_dense_values().last(),
            final(self).spec_dense_values() == old(self).spec_dense_values().drop_last(),
            final(self).spec_dense_keys() == old(self).spec_dense_keys().drop_last(),
            final(self).spec_sparse() == old(self).spec_sparse(),
    {
        let value = self.dense_values.pop().unwrap();
        let _ = self.dense_keys.pop();
        value
    }
}

impl<T: Clone> Clone for SparseArrayStorage<T> {
    /// Deep copy: the keys and rows are copied exactly; each value is a clone
    /// of the value at the same dense position.
    fn clone(&self) -> (res: Self)
        ensures
            res.spec_dense_values().len() == self.spec_dense_values().len(),
            forall|d: int|
                0 <= d < self.spec_dense_values().len() ==> cloned::<T>(
                    self.spec_dense_values()[d],
                    #[trigger] res.spec_dense_values()[d],
                ),
            res.spec_dense_keys() == self.spec_dense_keys(),
            res.spec_sparse() == self.spec_sparse(),
    {
        let mut dense_values: Vec<T> = Vec::new();
        let value_count = self.dense_values.len();
        for d in 0..value_count
            invariant
                value_count == self.dense_values@.len(),
                dense_values@.len() == d,
                forall|p: int|
                    0 <= p < d ==> cloned::<T>(
                        self.dense_values@[p],
                        #[trigger] dense_values@[p],
                    ),
        {
            dense_values.push(self.dense_values[d].clone());
        }
        let mut dense_keys: Vec<SparseKey> = Vec::new();
        let key_count = self.dense_keys.len();
        for d in 0..key_count
            invariant
                key_count == self.dense_keys@.len(),
                dense_keys@.len() == d,
                forall|p: int| 0 <= p < d ==> #[trigger] dense_keys@[p] == self.dense_keys@[p],
        {
            dense_keys.push(self.dense_keys[d]);
        }
        let mut sparse: Vec<SparseEntry> = Vec::new();
        let row_count = self.sparse.len();
        for s in 0..row_count
            invariant
                row_count == self.sparse@.len(),
                sparse@.len() == s,
                forall|p: int| 0 <= p < s ==> #[trigger] sparse@[p] == self.sparse@[p],
        {
            sparse.push(self.sparse[s]);
        }
        proof {
            assert(dense_keys@ =~= self.dense_keys@);
            assert(sparse@ =~= self.sparse@);
        }
        SparseArrayStorage { dense_values, dense_keys, sparse }
    }
}

} // verus!
