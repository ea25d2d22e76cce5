use vstd::prelude::*;

verus! {

/// An opaque, copyable handle to one value stored in a
/// [`SparseSet`](crate::SparseSet).
///
/// A key names a stable row of the sparse array (`sparse_index`) together with
/// the generation (`epoch`) that row carried when the key was issued. The
/// container accepts a key only while the row is alive and still carries the
/// same epoch, so every key issued for a value becomes stale the moment that
/// value is removed, and reusing the row later never revalidates it.
///
/// Two keys denote the same logical handle exactly when both fields match.
#[derive(Clone, Copy, Debug, PartialEq, Eq, Hash, Structural)]
pub struct SparseKey {
    /// Stable row id into the sparse array.
    pub sparse_index: usize,
    /// Generation counter the row carried when this key was issued.
    pub epoch: usize,
}

} // verus!
