use mononoke_import::generation::{highest_generation_update, GenerationUpdateError};
use mononoke_import::gitstore::{check_written_tree_id, TreeStoreError};
use mononoke_import::ids::{ChangesetId, HgId};
use mononoke_import::import_options::{
    after_import, bookmark_import_policy, concurrency_limits, derived_data_types_with_filenodes,
    manifold_target, BookmarkImportPolicy, ImportArgsError, ImportedRevision, ManifoldTarget,
};
use mononoke_import::manifold::{decimal_text, manifold_next_revision_payload, next_revision_to_import};

#[test]
fn generation_counter_starts_with_first_import() {
    assert_eq!(highest_generation_update(None, Some(12)), Ok(Some(12)));
}

#[test]
fn generation_counter_rises() {
    assert_eq!(highest_generation_update(Some(5), Some(7)), Ok(Some(7)));
}

#[test]
fn generation_counter_never_goes_down() {
    assert_eq!(highest_generation_update(Some(9), Some(7)), Ok(None));
    assert_eq!(highest_generation_update(Some(7), Some(7)), Ok(None));
}

#[test]
fn generation_number_must_be_set() {
    assert_eq!(
        highest_generation_update(Some(3), None),
        Err(GenerationUpdateError::GenerationNumberNotSet)
    );
    assert_eq!(
        highest_generation_update(None, None),
        Err(GenerationUpdateError::GenerationNumberNotSet)
    );
}

#[test]
fn generation_is_stored_as_signed() {
    // A generation past i64::MAX is stored as the signed value it converts to.
    assert_eq!(highest_generation_update(Some(1), Some(u64::MAX)), Ok(None));
    assert_eq!(highest_generation_update(None, Some(u64::MAX)), Ok(Some(-1)));
}

#[test]
fn counter_holds_highest_after_updates() {
    let mut counter: Option<i64> = None;
    for generation in [3u64, 8, 5, 8, 2, 11] {
        if let Ok(Some(value)) = highest_generation_update(counter, Some(generation)) {
            counter = Some(value);
        }
    }
    assert_eq!(counter, Some(11));
}

#[test]
fn next_revision_is_one_more() {
    assert_eq!(next_revision_to_import(0), 1);
    assert_eq!(next_revision_to_import(41), 42);
}

#[test]
fn manifold_payload_is_decimal_text() {
    assert_eq!(manifold_next_revision_payload(41), b"42".to_vec());
    assert_eq!(manifold_next_revision_payload(0), b"1".to_vec());
    assert_eq!(manifold_next_revision_payload(9), b"10".to_vec());
    assert_eq!(manifold_next_revision_payload(u32::MAX - 1), b"4294967295".to_vec());
}

#[test]
fn decimal_text_matches_format() {
    for n in [0u32, 1, 9, 10, 99, 100, 1234567, u32::MAX] {
        assert_eq!(decimal_text(n), format!("{}", n).into_bytes());
    }
}

#[test]
fn manifold_key_and_bucket_together() {
    let target = manifold_target(Some("key".to_string()), Some("bucket".to_string()))
        .unwrap()
        .unwrap();
    assert_eq!(target.key, "key");
    assert_eq!(target.bucket, "bucket");
    assert!(manifold_target(None, None).unwrap().is_none());
}

#[test]
fn manifold_key_or_bucket_alone_is_refused() {
    assert_eq!(
        manifold_target(Some("key".to_string()), None).unwrap_err(),
        ImportArgsError::IncompleteManifoldTarget
    );
    assert_eq!(
        manifold_target(None, Some("bucket".to_string())).unwrap_err(),
        ImportArgsError::IncompleteManifoldTarget
    );
}

#[test]
fn no_bookmark_conflicts_with_prefix() {
    assert_eq!(
        bookmark_import_policy(true, Some("pre/".to_string())).unwrap_err(),
        ImportArgsError::NoBookmarkWithPrefix
    );
}

#[test]
fn bookmark_policies() {
    assert!(matches!(
        bookmark_import_policy(true, None),
        Ok(BookmarkImportPolicy::Ignore)
    ));
    match bookmark_import_policy(false, Some("pre/".to_string())) {
        Ok(BookmarkImportPolicy::Prefix(prefix)) => assert_eq!(prefix, "pre/"),
        other => panic!("unexpected {:?}", other),
    }
    match bookmark_import_policy(false, None) {
        Ok(BookmarkImportPolicy::Prefix(prefix)) => assert_eq!(prefix, ""),
        other => panic!("unexpected {:?}", other),
    }
}

#[test]
fn concurrency_defaults() {
    let limits = concurrency_limits(None, None, None);
    assert_eq!((limits.changesets, limits.blobs, limits.lfs_imports), (100, 100, 10));
    let limits = concurrency_limits(Some(3), Some(4), Some(5));
    assert_eq!((limits.changesets, limits.blobs, limits.lfs_imports), (3, 4, 5));
}

#[test]
fn filenodes_always_derived() {
    let types = derived_data_types_with_filenodes(
        vec!["unodes".to_string(), "fsnodes".to_string()],
        "filenodes".to_string(),
    );
    assert_eq!(types, vec!["unodes", "fsnodes", "filenodes"]);
    let again = derived_data_types_with_filenodes(types.clone(), "filenodes".to_string());
    assert_eq!(again, types);
    let empty = derived_data_types_with_filenodes(vec![], "filenodes".to_string());
    assert_eq!(empty, vec!["filenodes"]);
    let present = derived_data_types_with_filenodes(
        vec!["filenodes".to_string(), "unodes".to_string()],
        "filenodes".to_string(),
    );
    assert_eq!(present, vec!["filenodes", "unodes"]);
}

#[test]
fn after_import_with_manifold() {
    let changeset = ChangesetId { blake2: [1u8; 32] };
    let steps = after_import(
        Some(ImportedRevision { revision: 99, changeset }),
        Some(ManifoldTarget { key: "k".to_string(), bucket: "b".to_string() }),
        false,
    );
    let write = steps.manifold_write.unwrap();
    assert_eq!(write.target.key, "k");
    assert_eq!(write.target.bucket, "b");
    assert_eq!(write.payload, b"100".to_vec());
    assert_eq!(steps.update_generation_of, Some(changeset));
}

#[test]
fn after_import_without_manifold_or_revision() {
    let changeset = ChangesetId { blake2: [2u8; 32] };
    let steps = after_import(Some(ImportedRevision { revision: 5, changeset }), None, false);
    assert!(steps.manifold_write.is_none());
    assert_eq!(steps.update_generation_of, Some(changeset));
    let nothing = after_import(
        None,
        Some(ManifoldTarget { key: "k".to_string(), bucket: "b".to_string() }),
        false,
    );
    assert!(nothing.manifold_write.is_none());
    assert!(nothing.update_generation_of.is_none());
}

#[test]
fn find_only_writes_manifold_but_not_counter() {
    let changeset = ChangesetId { blake2: [3u8; 32] };
    let steps = after_import(
        Some(ImportedRevision { revision: 7, changeset }),
        Some(ManifoldTarget { key: "k".to_string(), bucket: "b".to_string() }),
        true,
    );
    assert_eq!(steps.manifold_write.unwrap().payload, b"8".to_vec());
    assert!(steps.update_generation_of.is_none());
    let steps = after_import(Some(ImportedRevision { revision: 7, changeset }), None, true);
    assert!(steps.manifold_write.is_none());
    assert!(steps.update_generation_of.is_none());
}

#[test]
fn written_tree_id_must_match() {
    let id = HgId { sha1: [0xab; 20] };
    assert_eq!(check_written_tree_id(id, id), Ok(()));
    let mut other_bytes = [0xab; 20];
    other_bytes[19] = 0xac;
    let other = HgId { sha1: other_bytes };
    assert_eq!(
        check_written_tree_id(other, id),
        Err(TreeStoreError::TreeIdMismatch { written: other, expected: id })
    );
}
