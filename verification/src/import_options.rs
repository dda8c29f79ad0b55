//! Settings of a blob import, decided from the command-line values.

use vstd::prelude::*;

use crate::ids::ChangesetId;
use crate::manifold::{decimal_bytes, manifold_next_revision_payload};

verus! {

/// Command-line values that cannot stand together.
#[derive(Debug, Clone, Copy, PartialEq, Eq, Structural)]
pub enum ImportArgsError {
    /// Only one of the Manifold bucket and key was given: both or neither are needed.
    IncompleteManifoldTarget,
    /// `--no-bookmark` was given together with `--prefix-bookmark`.
    NoBookmarkWithPrefix,
}

/// The Manifold object that records the next revision to import.
#[derive(Debug, Clone)]
pub struct ManifoldTarget {
    pub key: String,
    pub bucket: String,
}

/// Pairs the Manifold key and bucket: both or none must be given.
pub fn manifold_target(key: Option<String>, bucket: Option<String>) -> (target: Result<Option<ManifoldTarget>, ImportArgsError>)
    ensures
        (key is Some && bucket is Some) <==> (target matches Ok(Some(_))),
        (key is None && bucket is None) <==> (target matches Ok(None)),
        (key is Some != bucket is Some) <==> target == Err::<Option<ManifoldTarget>, ImportArgsError>(ImportArgsError::IncompleteManifoldTarget),
        target matches Ok(Some(t)) ==> t.key == key->0 && t.bucket == bucket->0,
{
    match (key, bucket) {
        (Some(key), Some(bucket)) => Ok(Some(ManifoldTarget { key, bucket })),
        (None, None) => Ok(None),
        _ => Err(ImportArgsError::IncompleteManifoldTarget),
    }
}

/// How bookmarks of the imported repository are carried over.
#[derive(Debug, Clone)]
pub enum BookmarkImportPolicy {
    /// Bookmarks are not imported.
    Ignore,
    /// Bookmarks are imported with this ASCII prefix added to their names.
    Prefix(String),
}

/// Whether every character is ASCII.
pub open spec fn all_ascii(text: Seq<char>) -> bool {
    forall|i: int| 0 <= i < text.len() ==> (#[trigger] text[i] as u32) < 128
}

/// Decides the bookmark policy from `--no-bookmark` and `--prefix-bookmark`.
/// A prefix must be ASCII; no bookmark and a prefix together are refused.
pub fn bookmark_import_policy(no_bookmark: bool, prefix: Option<String>) -> (policy: Result<BookmarkImportPolicy, ImportArgsError>)
    requires
        !no_bookmark && prefix is Some ==> all_ascii(prefix->0@),
    ensures
        (no_bookmark && prefix is Some) <==> policy is Err,
        policy is Err ==> policy == Err::<BookmarkImportPolicy, ImportArgsError>(ImportArgsError::NoBookmarkWithPrefix),
        no_bookmark && prefix is None ==> policy matches Ok(BookmarkImportPolicy::Ignore),
        !no_bookmark ==> (policy matches Ok(BookmarkImportPolicy::Prefix(p)) && p@ == (match prefix {
            Some(given) => given@,
            None => Seq::<char>::empty(),
        })),
{
    if no_bookmark && prefix.is_some() {
        return Err(ImportArgsError::NoBookmarkWithPrefix);
    }
    if no_bookmark {
        Ok(BookmarkImportPolicy::Ignore)
    } else {
        match prefix {
            Some(prefix) => Ok(BookmarkImportPolicy::Prefix(prefix)),
            None => Ok(BookmarkImportPolicy::Prefix(String::new())),
        }
    }
}

/// How many changesets, blobs and LFS files are processed at once.
#[derive(Debug, Clone, Copy, PartialEq, Eq, Structural)]
pub struct ConcurrencyLimits {
    pub changesets: usize,
    pub blobs: usize,
    pub lfs_imports: usize,
}

/// The concurrency limits, taking the given values and otherwise 100
/// changesets, 100 blobs and 10 LFS imports at once.
pub fn concurrency_limits(changesets: Option<usize>, blobs: Option<usize>, lfs_imports: Option<usize>) -> (limits: ConcurrencyLimits)
    ensures
        limits.changesets == (match changesets { Some(n) => n, None => 100 }),
        limits.blobs == (match blobs { Some(n) => n, None => 100 }),
        limits.lfs_imports == (match lfs_imports { Some(n) => n, None => 10 }),
{
    ConcurrencyLimits {
        changesets: match changesets { Some(n) => n, None => 100 },
        blobs: match blobs { Some(n) => n, None => 100 },
        lfs_imports: match lfs_imports { Some(n) => n, None => 10 },
    }
}

/// The names of a list of strings.
pub open spec fn names_of(names: Seq<String>) -> Seq<Seq<char>> {
    names.map_values(|name: String| name@)
}

/// The derived data types to backfill: those requested, followed by the
/// filenodes type unless it was requested already.
pub open spec fn with_filenodes(requested: Seq<Seq<char>>, filenodes: Seq<char>) -> Seq<Seq<char>> {
    if requested.contains(filenodes) {
        requested
    } else {
        requested.push(filenodes)
    }
}

/// Adds the filenodes derived data type to the requested ones: an import of
/// public Mercurial changesets must always derive filenodes.
pub fn derived_data_types_with_filenodes(requested: Vec<String>, filenodes: String) -> (types: Vec<String>)
    ensures
        names_of(types@) == with_filenodes(names_of(requested@), filenodes@),
{
    let mut types = requested;
    let mut i: usize = 0;
    let mut found = false;
    while i < types.len()
        invariant
            i <= types.len(),
            found <==> exists|j: int| 0 <= j < i && names_of(types@)[j] == filenodes@,
        decreases types.len() - i,
    {
        assert(names_of(types@)[i as int] == types@[i as int]@);
        if types[i].eq(&filenodes) {
            found = true;
        }
        i = i + 1;
    }
    proof {
        if found {
            let j = choose|j: int| 0 <= j < i && names_of(types@)[j] == filenodes@;
            assert(names_of(types@).contains(filenodes@));
        } else {
            assert(!names_of(types@).contains(filenodes@));
        }
    }
    if !found {
        let ghost before = types@;
        types.push(filenodes);
        assert(names_of(types@) =~= names_of(before).push(filenodes@));
    }
    types
}

/// Filenodes are always among the derived data types, the requested types keep
/// their order in front, and adding filenodes a second time changes nothing.
pub proof fn lemma_filenodes_always_derived(requested: Seq<Seq<char>>, filenodes: Seq<char>)
    ensures
        with_filenodes(requested, filenodes).contains(filenodes),
        with_filenodes(requested, filenodes).subrange(0, requested.len() as int) == requested,
        with_filenodes(with_filenodes(requested, filenodes), filenodes) == with_filenodes(requested, filenodes),
{
    let result = with_filenodes(requested, filenodes);
    if !requested.contains(filenodes) {
        assert(result[requested.len() as int] == filenodes);
    }
    assert(result.subrange(0, requested.len() as int) =~= requested);
}

/// The latest revision of the revlog repository that an import brought in,
/// with the bonsai changeset it became.
#[derive(Debug, Clone, Copy, PartialEq, Eq)]
pub struct ImportedRevision {
    pub revision: u32,
    pub changeset: ChangesetId,
}

/// A write of the next revision to import into the Manifold object.
#[derive(Debug, Clone)]
pub struct ManifoldWrite {
    pub target: ManifoldTarget,
    pub payload: Vec<u8>,
}

/// What is left to do once an import (or the search for the already imported
/// revision) has finished.
#[derive(Debug, Clone)]
pub struct AfterImport {
    /// The next revision to import, to record in Manifold.
    pub manifold_write: Option<ManifoldWrite>,
    /// The changeset whose generation number may raise the counter of the
    /// highest imported generation.
    pub update_generation_of: Option<ChangesetId>,
}

/// Decides the steps after an import, or after the search for the already
/// imported revision (`find_only`, from `--find-already-imported-rev-only`).
/// When some revision was found: record the next one in Manifold if a target
/// was given, and, after an actual import only, bring the counter of the
/// highest imported generation up to date. The search alone writes nothing
/// else. When no revision was found: nothing.
pub fn after_import(latest: Option<ImportedRevision>, manifold: Option<ManifoldTarget>, find_only: bool) -> (steps: AfterImport)
    requires
        latest is Some && manifold is Some ==> latest->0.revision < u32::MAX,
    ensures
        latest is None ==> steps.manifold_write is None && steps.update_generation_of is None,
        find_only ==> steps.update_generation_of is None,
        latest matches Some(imported) ==> {
            &&& !find_only ==> steps.update_generation_of == Some(imported.changeset)
            &&& (steps.manifold_write is Some <==> manifold is Some)
            &&& steps.manifold_write matches Some(write) ==> {
                &&& write.target == manifold->0
                &&& write.payload@ == decimal_bytes((imported.revision + 1) as nat)
            }
        },
{
    match latest {
        None => AfterImport { manifold_write: None, update_generation_of: None },
        Some(imported) => {
            let manifold_write = match manifold {
                Some(target) => Some(ManifoldWrite { target, payload: manifold_next_revision_payload(imported.revision) }),
                None => None,
            };
            let update_generation_of = if find_only {
                None
            } else {
                Some(imported.changeset)
            };
            AfterImport { manifold_write, update_generation_of }
        },
    }
}

} // verus!
