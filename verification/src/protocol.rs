//! Parameters of a request for a stream of packfile items over the Git protocol.

use std::collections::HashMap;
use std::collections::HashSet;

use vstd::prelude::*;

use crate::ids::ChangesetId;

verus! {

/// The set of refs that are to be included in or excluded from the pack.
#[derive(Debug)]
pub enum RequestedRefs {
    /// Include the following refs with values known by the server.
    Included(HashSet<String>),
    /// Include the following refs with values provided by the caller.
    IncludedWithValue(HashMap<String, ChangesetId>),
    /// Exclude the following refs.
    Excluded(HashSet<String>),
}

/// What a `RequestedRefs` value says, as mathematical sets and maps.
pub enum RequestedRefsView {
    Included(Set<String>),
    IncludedWithValue(Map<String, ChangesetId>),
    Excluded(Set<String>),
}

impl View for RequestedRefs {
    type V = RequestedRefsView;

    open spec fn view(&self) -> RequestedRefsView {
        match self {
            RequestedRefs::Included(refs) => RequestedRefsView::Included(refs@),
            RequestedRefs::IncludedWithValue(refs) => RequestedRefsView::IncludedWithValue(refs@),
            RequestedRefs::Excluded(refs) => RequestedRefsView::Excluded(refs@),
        }
    }
}

/// Copies a set of ref names with `HashSet::clone`. Trusted: the contract
/// claims, as std documents and as vstd states of `HashMap::clone`, that the
/// copy holds the same names.
#[verifier::external_body]
fn clone_ref_names(names: &HashSet<String>) -> (copy: HashSet<String>)
    ensures
        copy@ == names@,
{
    names.clone()
}

impl Clone for RequestedRefs {
    /// The copy names the same refs, in the same variant.
    fn clone(&self) -> (copy: Self)
        ensures
            copy@ == self@,
    {
        match self {
            RequestedRefs::Included(refs) => RequestedRefs::Included(clone_ref_names(refs)),
            RequestedRefs::IncludedWithValue(refs) => RequestedRefs::IncludedWithValue(refs.clone()),
            RequestedRefs::Excluded(refs) => RequestedRefs::Excluded(clone_ref_names(refs)),
        }
    }
}

impl RequestedRefs {
    /// All refs: nothing is excluded.
    pub fn all() -> (refs: Self)
        ensures
            refs@ == RequestedRefsView::Excluded(Set::empty()),
    {
        RequestedRefs::Excluded(HashSet::new())
    }

    /// No refs: nothing is included.
    pub fn none() -> (refs: Self)
        ensures
            refs@ == RequestedRefsView::Included(Set::empty()),
    {
        RequestedRefs::Included(HashSet::new())
    }
}

/// How annotated tags should be included as a ref.
#[derive(Debug, Clone, Copy, PartialEq, Eq, Structural)]
pub enum TagInclusion {
    /// Peel the tag and map it to the underlying Git commit.
    Peeled,
    /// Include the tag as-is without peeling and map it to the annotated Git tag object.
    AsIs,
}

/// Which kinds of delta objects the pack may hold.
#[derive(Debug, Clone, Copy, PartialEq, Eq, Structural)]
pub enum DeltaForm {
    /// Deltas may refer to their base either by object id or by offset.
    RefAndOffset,
    /// Deltas may refer to their base only by offset.
    OnlyOffset,
}

/// Whether a delta should be included in the pack and if so, what kind of delta.
#[derive(Debug, Clone, Copy, PartialEq, Eq, Structural)]
pub enum DeltaInclusion {
    /// Include deltas with the provided form and inclusion threshold.
    Include {
        /// Whether the pack input should consist of RefDeltas or only OffsetDeltas.
        form: DeltaForm,
        /// The threshold, as a fraction (0.0 to 1.0) of the uncompressed object size,
        /// that a delta must stay under to be included, held as the IEEE-754 bit
        /// pattern of its single-precision value.
        inclusion_threshold_bits: u32,
    },
    /// Do not include deltas.
    Exclude,
}

/// What a `PackItemStreamRequest` says, with its collections as mathematical values.
pub struct PackItemStreamRequestView {
    pub requested_refs: RequestedRefsView,
    pub have_heads: Seq<ChangesetId>,
    pub delta_inclusion: DeltaInclusion,
    pub tag_inclusion: TagInclusion,
}

/// The constraints to honor while generating the stream of packfile items.
#[derive(Debug)]
pub struct PackItemStreamRequest {
    /// The refs that are requested to be included/excluded from the pack.
    pub requested_refs: RequestedRefs,
    /// The heads of the references that are present with the client.
    pub have_heads: Vec<ChangesetId>,
    /// The type of delta that should be included in the pack, if any.
    pub delta_inclusion: DeltaInclusion,
    /// How annotated tags should be included in the pack.
    pub tag_inclusion: TagInclusion,
}

impl View for PackItemStreamRequest {
    type V = PackItemStreamRequestView;

    open spec fn view(&self) -> PackItemStreamRequestView {
        PackItemStreamRequestView {
            requested_refs: self.requested_refs@,
            have_heads: self.have_heads@,
            delta_inclusion: self.delta_inclusion,
            tag_inclusion: self.tag_inclusion,
        }
    }
}

/// Copies a list of changeset ids.
fn copy_heads(heads: &Vec<ChangesetId>) -> (copy: Vec<ChangesetId>)
    ensures
        copy@ == heads@,
{
    let mut copy: Vec<ChangesetId> = Vec::new();
    let mut i: usize = 0;
    while i < heads.len()
        invariant
            i <= heads.len(),
            copy@ == heads@.take(i as int),
        decreases heads.len() - i,
    {
        copy.push(heads[i]);
        i = i + 1;
        assert(copy@ =~= heads@.take(i as int));
    }
    assert(heads@.take(heads.len() as int) =~= heads@);
    copy
}

impl Clone for PackItemStreamRequest {
    /// The copy is the same request: same refs, heads, delta and tag settings.
    fn clone(&self) -> (copy: Self)
        ensures
            copy@ == self@,
    {
        PackItemStreamRequest {
            requested_refs: self.requested_refs.clone(),
            have_heads: copy_heads(&self.have_heads),
            delta_inclusion: self.delta_inclusion,
            tag_inclusion: self.tag_inclusion,
        }
    }
}

impl PackItemStreamRequest {
    /// A request made of the given parts.
    pub fn new(
        requested_refs: RequestedRefs,
        have_heads: Vec<ChangesetId>,
        delta_inclusion: DeltaInclusion,
        tag_inclusion: TagInclusion,
    ) -> (request: Self)
        ensures
            request.requested_refs == requested_refs,
            request.have_heads == have_heads,
            request.delta_inclusion == delta_inclusion,
            request.tag_inclusion == tag_inclusion,
    {
        Self { requested_refs, have_heads, delta_inclusion, tag_inclusion }
    }

    /// A request for the whole repository: no ref is excluded and the client has no heads.
    pub fn full_repo(delta_inclusion: DeltaInclusion, tag_inclusion: TagInclusion) -> (request: Self)
        ensures
            request@ == (PackItemStreamRequestView {
                requested_refs: RequestedRefsView::Excluded(Set::empty()),
                have_heads: Seq::empty(),
                delta_inclusion,
                tag_inclusion,
            }),
    {
        Self {
            requested_refs: RequestedRefs::Excluded(HashSet::new()),
            have_heads: Vec::new(),
            delta_inclusion,
            tag_inclusion,
        }
    }
}

} // verus!
