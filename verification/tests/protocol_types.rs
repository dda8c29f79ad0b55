use mononoke_import::ids::ChangesetId;
use mononoke_import::protocol::{
    DeltaForm, DeltaInclusion, PackItemStreamRequest, RequestedRefs, TagInclusion,
};

#[test]
fn all_refs_excludes_nothing() {
    match RequestedRefs::all() {
        RequestedRefs::Excluded(refs) => assert!(refs.is_empty()),
        other => panic!("unexpected {:?}", other),
    }
}

#[test]
fn no_refs_includes_nothing() {
    match RequestedRefs::none() {
        RequestedRefs::Included(refs) => assert!(refs.is_empty()),
        other => panic!("unexpected {:?}", other),
    }
}

#[test]
fn new_request_keeps_its_parts() {
    let mut refs = std::collections::HashSet::new();
    refs.insert("refs/heads/main".to_string());
    let head = ChangesetId { blake2: [7u8; 32] };
    let delta = DeltaInclusion::Include {
        form: DeltaForm::OnlyOffset,
        inclusion_threshold_bits: 0.5f32.to_bits(),
    };
    let request = PackItemStreamRequest::new(
        RequestedRefs::Included(refs),
        vec![head],
        delta,
        TagInclusion::AsIs,
    );
    match &request.requested_refs {
        RequestedRefs::Included(refs) => {
            assert_eq!(refs.len(), 1);
            assert!(refs.contains("refs/heads/main"));
        }
        other => panic!("unexpected {:?}", other),
    }
    assert_eq!(request.have_heads, vec![head]);
    assert_eq!(request.delta_inclusion, delta);
    assert_eq!(request.tag_inclusion, TagInclusion::AsIs);
    let copy = request.clone();
    assert_eq!(copy.have_heads, vec![head]);
    match copy.requested_refs {
        RequestedRefs::Included(refs) => assert!(refs.contains("refs/heads/main")),
        other => panic!("unexpected {:?}", other),
    }
}

#[test]
fn full_repo_request_wants_everything() {
    let request = PackItemStreamRequest::full_repo(DeltaInclusion::Exclude, TagInclusion::Peeled);
    match &request.requested_refs {
        RequestedRefs::Excluded(refs) => assert!(refs.is_empty()),
        other => panic!("unexpected {:?}", other),
    }
    assert!(request.have_heads.is_empty());
    assert_eq!(request.delta_inclusion, DeltaInclusion::Exclude);
    assert_eq!(request.tag_inclusion, TagInclusion::Peeled);
}

#[test]
fn delta_threshold_bits_round_trip() {
    let delta = DeltaInclusion::Include {
        form: DeltaForm::RefAndOffset,
        inclusion_threshold_bits: 0.25f32.to_bits(),
    };
    match delta {
        DeltaInclusion::Include { inclusion_threshold_bits, .. } => {
            assert_eq!(f32::from_bits(inclusion_threshold_bits), 0.25f32)
        }
        DeltaInclusion::Exclude => panic!("expected Include"),
    }
}
