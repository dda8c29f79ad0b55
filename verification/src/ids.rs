//! Identifiers that the importer and the stores pass around.

use vstd::prelude::*;

verus! {

/// A Mononoke (bonsai) changeset id: a 32-byte Blake2 hash.
#[derive(Clone, Copy, Debug, PartialEq, Eq, Hash)]
pub struct ChangesetId {
    pub blake2: [u8; 32],
}

/// A Mercurial changeset id: a 20-byte SHA-1 node hash.
#[derive(Clone, Copy, Debug, PartialEq, Eq, Hash)]
pub struct HgChangesetId {
    pub sha1: [u8; 20],
}

/// A Mercurial node id as used by the file and tree stores: 20 bytes.
#[derive(Clone, Copy, Debug, PartialEq, Eq, Hash)]
pub struct HgId {
    pub sha1: [u8; 20],
}

/// Compares two 20-byte hashes byte by byte.
pub fn same_sha1(a: &[u8; 20], b: &[u8; 20]) -> (same: bool)
    ensures
        same == (*a == *b),
{
    broadcast use vstd::array::group_array_axioms;

    let mut i: usize = 0;
    while i < 20
        invariant
            i <= 20,
            forall|j: int| 0 <= j < i ==> a[j] == b[j],
        decreases 20 - i,
    {
        if a[i] != b[i] {
            return false;
        }
        i = i + 1;
    }
    assert(*a =~= *b);
    true
}

impl HgChangesetId {
    /// Whether two Mercurial changeset ids are the same hash.
    pub fn same_as(&self, other: &HgChangesetId) -> (same: bool)
        ensures
            same == (*self == *other),
    {
        same_sha1(&self.sha1, &other.sha1)
    }
}

impl HgId {
    /// Whether two node ids are the same hash.
    pub fn same_as(&self, other: &HgId) -> (same: bool)
        ensures
            same == (*self == *other),
    {
        same_sha1(&self.sha1, &other.sha1)
    }
}

} // verus!
