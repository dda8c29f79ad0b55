//! Checks made by the Git-backed tree store.

use vstd::prelude::*;

use crate::ids::HgId;

verus! {

/// Why a tree could not be stored.
#[derive(Debug, Clone, Copy, PartialEq, Eq)]
pub enum TreeStoreError {
    /// The store wrote the tree under another id than the one it was given.
    TreeIdMismatch { written: HgId, expected: HgId },
}

/// After a tree was written to the Git object store, checks that it landed
/// under the id it was inserted with.
pub fn check_written_tree_id(written: HgId, expected: HgId) -> (checked: Result<(), TreeStoreError>)
    ensures
        checked is Ok <==> written == expected,
        checked is Err ==> checked == Err::<(), TreeStoreError>(TreeStoreError::TreeIdMismatch { written, expected }),
{
    if written.same_as(&expected) {
        Ok(())
    } else {
        Err(TreeStoreError::TreeIdMismatch { written, expected })
    }
}

} // verus!
