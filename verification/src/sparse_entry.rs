use vstd::prelude::*;

verus! {

/// Terminator of the free list: a `next_free` value that can never name a real
/// row, because a row index is always strictly below the sparse array's length
/// and the sparse array never reaches this many rows (growing it further is
/// excluded by the machine-limit precondition on [`crate::SparseSet::push`]).
pub const MAX_SPARSE_INDEX: usize = usize::MAX;

/// The last epoch a row can reach. A row freed while its key carried this
/// epoch is retired: it is never placed back on the free list, so no two keys
/// with the same `(sparse_index, epoch)` pair are ever issued.
pub const MAX_EPOCH: usize = usize::MAX;

/// The epoch stamped onto a row when it is freed while at epoch `e`: the
/// counter advances by one and wraps at the maximum. The wrapped value is
/// never handed out, because a row that reaches [`MAX_EPOCH`] is retired.
pub open spec fn epoch_successor(e: usize) -> usize {
    if e == MAX_EPOCH {
        0
    } else {
        (e + 1) as usize
    }
}

/// One row of the sparse array: either the row currently names a value, or it
/// is free and chained into the free list.
#[derive(Clone, Copy, Debug, PartialEq, Eq, Structural)]
pub enum SparseEntry {
    /// The row names a value: `dense_index` is where that value currently sits
    /// in the dense arrays, and `epoch` is the generation an incoming key must
    /// carry to be accepted.
    Alive { dense_index: usize, epoch: usize },
    /// The row is unused: `next_free` is the next row of the free list
    /// ([`MAX_SPARSE_INDEX`] ends the chain) and `next_epoch` is the
    /// generation the next key issued for this row will carry.
    Free { next_free: usize, next_epoch: usize },
}

impl SparseEntry {
    /// A freshly revived or newly allocated row pointing at `dense_index`.
    pub(crate) fn new_alive(dense_index: usize, epoch: usize) -> (e: Self)
        ensures
            e == (SparseEntry::Alive { dense_index, epoch }),
    {
        SparseEntry::Alive { dense_index, epoch }
    }

    /// Turns an alive row into a free one: the dense pointer is replaced by
    /// the free-list link and the epoch advances to the generation the next
    /// key for this row will carry.
    pub(crate) fn mark_free(&mut self, next_free: usize)
        requires
            *old(self) is Alive,
        ensures
            *final(self) == (SparseEntry::Free {
                next_free,
                next_epoch: epoch_successor(old(self)->epoch),
            }),
    {
        let epoch = self.epoch();
        let next_epoch = if epoch == MAX_EPOCH {
            0
        } else {
            epoch + 1
        };
        *self = SparseEntry::Free { next_free, next_epoch };
    }

    pub(crate) fn is_alive(&self) -> (r: bool)
        ensures
            r == (*self is Alive),
    {
        match self {
            SparseEntry::Alive { .. } => true,
            SparseEntry::Free { .. } => false,
        }
    }

    pub(crate) fn dense_index(&self) -> (r: usize)
        requires
            *self is Alive,
        ensures
            r == self->dense_index,
    {
        match self {
            SparseEntry::Alive { dense_index, .. } => *dense_index,
            SparseEntry::Free { .. } => vstd::pervasive::unreached(),
        }
    }

    pub(crate) fn epoch(&self) -> (r: usize)
        requires
            *self is Alive,
        ensures
            r == self->epoch,
    {
        match self {
            SparseEntry::Alive { epoch, .. } => *epoch,
            SparseEntry::Free { .. } => vstd::pervasive::unreached(),
        }
    }

    pub(crate) fn next_free(&self) -> (r: usize)
        requires
            *self is Free,
        ensures
            r == self->next_free,
    {
        match self {
            SparseEntry::Free { next_free, .. } => *next_free,
            SparseEntry::Alive { .. } => vstd::pervasive::unreached(),
        }
    }

    pub(crate) fn next_epoch(&self) -> (r: usize)
        requires
            *self is Free,
        ensures
            r == self->next_epoch,
    {
        match self {
            SparseEntry::Free { next_epoch, .. } => *next_epoch,
            SparseEntry::Alive { .. } => vstd::pervasive::unreached(),
        }
    }
}

} // verus!
