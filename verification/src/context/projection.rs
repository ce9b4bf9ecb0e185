//! Projections: what a model is shown for one task, bound to one policy.

use crate::action::CanonicalValue;
use crate::approval::TimestampMillis;
use crate::context::{
    all_in_workspace, all_texts, class_name, class_names_differ, data_class_str, extend, flaw_of,
    most_restrictive, source_provenance_kind_names_differ, strictest, strictest_bounds,
    strictest_is_one, stricter, text_items, text_items_are_told_apart, text_set_json,
    texts_come_from_one, texts_reach, ContextDigest, ContextError, ContextErrorView,
    ContextSource, ContextSourceId,
    ModelDataPolicy, PolicyView, ProjectionId, ProjectionTaskKey, ProvenanceView, SourceProvenance,
    SourceView,
};
use crate::digest::text_digest;
use crate::egress::{has_class, DataClass};
use crate::identity::WorkspaceId;
use crate::ids::{uuid_text, uuid_text_is_injective};
use crate::json::{
    array, item_models, no_fields, no_members, object, plain, put, string, Json, JsonView,
};
use crate::lists::{mapping_keeps_items, views};
use crate::model::{InputView, MessageView, ModelInput, ModelMessage, ModelRole};
use crate::ordered::{all_within, TextSet};
use crate::provider::{
    binding_flaw, validate_binding, ModelProfile, ModelProfileId, ProfileView, ProviderConfig,
    ProviderErrorKind, ProviderErrorView, ProviderView,
};
use crate::sorting::{text_set, text_set_members};
use crate::text::{sorted_texts, str_eq, texts};
use vstd::prelude::*;

verus! {

/// How a source is shown.
#[derive(Clone, Copy, Debug, PartialEq, Eq, Structural)]
pub enum ProjectionTransform {
    Exact,
}

/// A source as a model is shown it.
#[derive(Clone, Debug, PartialEq, Eq)]
pub struct ProjectedSource {
    source_id: ContextSourceId,
    source_digest: ContextDigest,
    classification: DataClass,
    compartments: TextSet,
    provenance: SourceProvenance,
    transform: ProjectionTransform,
    content: CanonicalValue,
}

/// The model of a `ProjectedSource`.
pub struct ProjectedView {
    pub source_id: ContextSourceId,
    pub source_digest: Seq<char>,
    pub classification: DataClass,
    pub compartments: Seq<Seq<char>>,
    pub provenance: ProvenanceView,
    pub transform: ProjectionTransform,
    pub content: JsonView,
}

impl View for ProjectedSource {
    type V = ProjectedView;

    closed spec fn view(&self) -> ProjectedView {
        ProjectedView {
            source_id: self.source_id,
            source_digest: self.source_digest@,
            classification: self.classification,
            compartments: self.compartments@,
            provenance: self.provenance@,
            transform: self.transform,
            content: self.content@,
        }
    }
}

/// The source as it is.
pub open spec fn exactly(s: SourceView) -> ProjectedView {
    ProjectedView {
        source_id: s.id,
        source_digest: s.digest,
        classification: s.classification,
        compartments: s.compartments,
        provenance: s.provenance,
        transform: ProjectionTransform::Exact,
        content: s.content,
    }
}

/// The sources as they are.
pub open spec fn exacts(s: Seq<SourceView>) -> Seq<ProjectedView> {
    s.map_values(|v: SourceView| exactly(v))
}

impl ProjectedView {
    /// The JSON value in a payload.
    pub open spec fn json(self) -> JsonView {
        JsonView::Object(
            no_fields().push(("source_id"@, JsonView::Str(uuid_text(self.source_id.value)))).push(
                ("source_digest"@, JsonView::Str(self.source_digest)),
            ).push(("classification"@, JsonView::Str(class_name(self.classification)))).push(
                ("compartments"@, JsonView::Array(text_items(self.compartments))),
            ).push(("provenance_kind"@, JsonView::Str(self.provenance.kind.name()))).push(
                ("provenance_reference"@, JsonView::Str(self.provenance.reference)),
            ).push(("transform"@, JsonView::Str("exact"@))).push(("content"@, self.content)),
        )
    }
}

impl ProjectedSource {
    /// The source as it is.
    pub fn exact(source: &ContextSource) -> (r: ProjectedSource)
        ensures
            r@ == exactly(source@),
    {
        ProjectedSource {
            source_id: source.id(),
            source_digest: source.digest().clone(),
            classification: source.classification(),
            compartments: source.compartments().clone(),
            provenance: source.provenance().clone(),
            transform: ProjectionTransform::Exact,
            content: source.content().clone(),
        }
    }

    /// The source.
    pub fn source_id(&self) -> (r: ContextSourceId)
        ensures
            r == self@.source_id,
    {
        self.source_id
    }

    /// The digest of the source.
    pub fn source_digest(&self) -> (r: &ContextDigest)
        ensures
            r@ == self@.source_digest,
    {
        &self.source_digest
    }

    /// Where it comes from.
    pub fn provenance(&self) -> (r: &SourceProvenance)
        ensures
            r@ == self@.provenance,
    {
        &self.provenance
    }

    /// The content.
    pub fn content(&self) -> (r: &CanonicalValue)
        ensures
            r@ == self@.content,
    {
        &self.content
    }

    fn to_json(&self) -> (r: Json)
        ensures
            r@ == self@.json(),
    {
        let mut m = no_members();
        put(&mut m, "source_id", Json::Str(self.source_id.to_text()));
        put(&mut m, "source_digest", string(self.source_digest.as_str()));
        put(&mut m, "classification", string(data_class_str(self.classification)));
        put(&mut m, "compartments", text_set_json(&self.compartments));
        put(&mut m, "provenance_kind", string(self.provenance.kind().as_str()));
        put(&mut m, "provenance_reference", string(self.provenance.reference()));
        put(&mut m, "transform", string("exact"));
        put(&mut m, "content", self.content.to_json());
        object(m)
    }
}

/// Where `x` goes in the first `n` of a list: behind those whose identity is
/// not greater.
pub open spec fn slot(l: Seq<ProjectedView>, x: ProjectedView, n: int) -> int
    decreases n,
{
    if 0 < n && l[n - 1].source_id.value > x.source_id.value {
        slot(l, x, n - 1)
    } else {
        n
    }
}

/// The list in ascending order of the identities, equals in their order.
pub open spec fn by_id(s: Seq<ProjectedView>) -> Seq<ProjectedView>
    decreases s.len(),
{
    if s.len() == 0 {
        s
    } else {
        let head = by_id(s.drop_last());
        head.insert(slot(head, s.last(), head.len() as int), s.last())
    }
}

/// The identities do not descend.
pub open spec fn ids_ascend(s: Seq<ProjectedView>) -> bool {
    forall|i: int, j: int|
        #![trigger s[i], s[j]]
        0 <= i < j < s.len() ==> s[i].source_id.value <= s[j].source_id.value
}

proof fn slot_parts(l: Seq<ProjectedView>, x: ProjectedView, n: int)
    requires
        0 <= n <= l.len(),
    ensures
        0 <= slot(l, x, n) <= n,
        slot(l, x, n) > 0 ==> l[slot(l, x, n) - 1].source_id.value <= x.source_id.value,
        forall|k: int|
            slot(l, x, n) <= k < n ==> (#[trigger] l[k]).source_id.value > x.source_id.value,
    decreases n,
{
    if 0 < n && l[n - 1].source_id.value > x.source_id.value {
        slot_parts(l, x, n - 1);
    }
}

/// Ordering by identity gives an ascending list of the same sources.
pub proof fn ordering_keeps_the_sources(s: Seq<ProjectedView>)
    ensures
        ids_ascend(by_id(s)),
        by_id(s).len() == s.len(),
        by_id(s).to_multiset() == s.to_multiset(),
        forall|x: ProjectedView| #[trigger] by_id(s).contains(x) <==> s.contains(x),
    decreases s.len(),
{
    broadcast use vstd::seq_lib::group_to_multiset_ensures;

    if s.len() > 0 {
        let x = s.last();
        let h = s.drop_last();
        let head = by_id(h);
        ordering_keeps_the_sources(h);
        let at = slot(head, x, head.len() as int);
        slot_parts(head, x, head.len() as int);
        let r = by_id(s);
        assert(r == head.insert(at, x));
        assert forall|i: int, j: int|
            #![trigger r[i], r[j]]
            0 <= i < j < r.len() implies r[i].source_id.value <= r[j].source_id.value by {
            if j < at {
                assert(head[i].source_id.value <= head[j].source_id.value);
            } else if j == at {
                if i < at - 1 {
                    assert(head[i].source_id.value <= head[at - 1].source_id.value);
                }
            } else if i < at {
                assert(head[i].source_id.value <= head[j - 1].source_id.value);
            } else if i == at {
                assert(head[j - 1].source_id.value > x.source_id.value);
            } else {
                assert(head[i - 1].source_id.value <= head[j - 1].source_id.value);
            }
        }
        assert(s =~= h.push(x));
        assert(r.to_multiset() =~= head.to_multiset().insert(x));
        assert(s.to_multiset() =~= h.to_multiset().insert(x));
        assert forall|y: ProjectedView| #[trigger] r.contains(y) <==> s.contains(y) by {
            assert(r.contains(y) <==> r.to_multiset().contains(y));
            assert(s.contains(y) <==> s.to_multiset().contains(y));
        }
    } else {
        assert(by_id(s) == s);
    }
}

fn place(list: &mut Vec<ProjectedSource>, x: ProjectedSource)
    ensures
        views(final(list)@) == views(old(list)@).insert(
            slot(views(old(list)@), x@, old(list)@.len() as int),
            x@,
        ),
{
    let ghost before = views(list@);
    let ghost v = x@;
    let mut n: usize = list.len();
    proof {
        slot_parts(before, v, before.len() as int);
    }
    while n > 0 && list[n - 1].source_id.value > x.source_id.value
        invariant
            n <= list@.len(),
            before == views(list@),
            list@ == old(list)@,
            v == x@,
            slot(before, v, before.len() as int) == slot(before, v, n as int),
        decreases n,
    {
        proof {
            assert(before[n - 1] == list@[n - 1]@);
        }
        n -= 1;
    }
    proof {
        if n > 0 {
            assert(before[n - 1] == list@[n - 1]@);
        }
    }
    list.insert(n, x);
    proof {
        assert(views(list@) =~= before.insert(n as int, v));
    }
}

/// What a model is shown for one task.
#[derive(Clone, Debug, PartialEq, Eq)]
pub struct TaskProjection {
    id: ProjectionId,
    workspace_id: WorkspaceId,
    task_key: ProjectionTaskKey,
    model_profile_id: ModelProfileId,
    model_profile_revision: u64,
    policy_revision: u64,
    sources: Vec<ProjectedSource>,
    classification: DataClass,
    compartments: TextSet,
    created_at: TimestampMillis,
    serialized_payload: String,
    digest: ContextDigest,
}

/// The model of a `TaskProjection`.
pub struct ProjectionView {
    pub id: ProjectionId,
    pub workspace_id: WorkspaceId,
    pub task_key: Seq<char>,
    pub model_profile_id: Seq<char>,
    pub model_profile_revision: u64,
    pub policy_revision: u64,
    pub sources: Seq<ProjectedView>,
    pub classification: DataClass,
    pub compartments: Seq<Seq<char>>,
    pub created_at: TimestampMillis,
    pub serialized_payload: Seq<char>,
    pub digest: Seq<char>,
}

impl View for TaskProjection {
    type V = ProjectionView;

    closed spec fn view(&self) -> ProjectionView {
        ProjectionView {
            id: self.id,
            workspace_id: self.workspace_id,
            task_key: self.task_key@,
            model_profile_id: self.model_profile_id@,
            model_profile_revision: self.model_profile_revision,
            policy_revision: self.policy_revision,
            sources: views(self.sources@),
            classification: self.classification,
            compartments: self.compartments@,
            created_at: self.created_at,
            serialized_payload: self.serialized_payload@,
            digest: self.digest@,
        }
    }
}

/// The JSON values of the sources.
pub open spec fn sources_json(s: Seq<ProjectedView>) -> Seq<JsonView> {
    s.map_values(|v: ProjectedView| v.json())
}

/// The JSON value of a payload.
pub open spec fn payload_json(
    id: ProjectionId,
    workspace_id: WorkspaceId,
    task_key: Seq<char>,
    model_profile_id: Seq<char>,
    model_profile_revision: u64,
    policy_revision: u64,
    sources: Seq<ProjectedView>,
) -> JsonView {
    JsonView::Object(
        no_fields().push(("schema_version"@, JsonView::Int(1))).push(
            ("projection_id"@, JsonView::Str(uuid_text(id.value))),
        ).push(("workspace_id"@, JsonView::Str(uuid_text(workspace_id.value)))).push(
            ("task_key"@, JsonView::Str(task_key)),
        ).push(("model_profile_id"@, JsonView::Str(model_profile_id))).push(
            ("model_profile_revision"@, JsonView::Int(model_profile_revision as int)),
        ).push(("policy_revision"@, JsonView::Int(policy_revision as int))).push(
            ("sources"@, JsonView::Array(sources_json(sources))),
        ),
    )
}

fn serialize_projection_payload(
    id: ProjectionId,
    workspace_id: WorkspaceId,
    task_key: &ProjectionTaskKey,
    model_profile_id: &ModelProfileId,
    model_profile_revision: u64,
    policy_revision: u64,
    sources: &Vec<ProjectedSource>,
) -> (r: String)
    ensures
        r@ == plain(
            payload_json(
                id,
                workspace_id,
                task_key@,
                model_profile_id@,
                model_profile_revision,
                policy_revision,
                views(sources@),
            ),
        ),
{
    let mut list: Vec<Json> = Vec::new();
    let mut i: usize = 0;
    while i < sources.len()
        invariant
            i <= sources@.len(),
            list@.len() == i,
            forall|k: int| 0 <= k < i ==> (#[trigger] list@[k])@ == sources@[k]@.json(),
        decreases sources@.len() - i,
    {
        list.push(sources[i].to_json());
        i += 1;
    }
    proof {
        assert(item_models(list@) =~= sources_json(views(sources@)));
    }
    let mut m = no_members();
    put(&mut m, "schema_version", Json::Int(1));
    put(&mut m, "projection_id", Json::Str(id.to_text()));
    put(&mut m, "workspace_id", Json::Str(workspace_id.to_text()));
    put(&mut m, "task_key", string(task_key.as_str()));
    put(&mut m, "model_profile_id", string(model_profile_id.as_str()));
    put(&mut m, "model_profile_revision", Json::UInt(model_profile_revision));
    put(&mut m, "policy_revision", Json::UInt(policy_revision));
    put(&mut m, "sources", array(list));
    object(m).to_text()
}

/// Some source is secret.
pub open spec fn has_secret(s: Seq<ProjectedView>) -> bool {
    exists|i: int| 0 <= i < s.len() && (#[trigger] s[i]).classification == DataClass::Secret
}

/// No two sources share an identity.
pub open spec fn distinct_ids(s: Seq<ProjectedView>) -> bool {
    forall|i: int, j: int|
        #![trigger s[i], s[j]]
        0 <= i < j < s.len() ==> s[i].source_id != s[j].source_id
}

/// The classes of the sources.
pub open spec fn shown_classes(s: Seq<ProjectedView>) -> Seq<DataClass> {
    s.map_values(|v: ProjectedView| v.classification)
}

/// The compartments of the sources.
pub open spec fn shown_compartments(s: Seq<ProjectedView>) -> Seq<Seq<Seq<char>>> {
    s.map_values(|v: ProjectedView| v.compartments)
}

/// The projection of some sources, or why there is none. With `expected` it
/// must have that digest.
pub open spec fn projection_of(
    id: ProjectionId,
    workspace_id: WorkspaceId,
    task_key: Seq<char>,
    model_profile_id: Seq<char>,
    model_profile_revision: u64,
    policy_revision: u64,
    sources: Seq<ProjectedView>,
    created_at: TimestampMillis,
    expected: Option<Seq<char>>,
) -> Result<ProjectionView, ContextErrorView> {
    let payload = plain(
        payload_json(
            id,
            workspace_id,
            task_key,
            model_profile_id,
            model_profile_revision,
            policy_revision,
            sources,
        ),
    );
    if sources.len() == 0 || model_profile_revision == 0 || policy_revision == 0 {
        Err(ContextErrorView::InvalidProjection)
    } else if has_secret(sources) {
        Err(ContextErrorView::SecretSourceDenied)
    } else if !distinct_ids(sources) {
        Err(ContextErrorView::InvalidProjection)
    } else if expected is Some && expected->0 != text_digest(payload) {
        Err(ContextErrorView::DigestMismatch)
    } else {
        Ok(
            ProjectionView {
                id,
                workspace_id,
                task_key,
                model_profile_id,
                model_profile_revision,
                policy_revision,
                sources,
                classification: strictest(shown_classes(sources), 1, sources[0].classification),
                compartments: text_set(all_texts(shown_compartments(sources), 0)),
                created_at,
                serialized_payload: payload,
                digest: text_digest(payload),
            },
        )
    }
}

/// The first reason, from source `i` on, why a source is denied to a profile.
pub open spec fn first_denial(
    policy: PolicyView,
    profile: ProfileView,
    sources: Seq<SourceView>,
    i: int,
) -> Option<ContextErrorView>
    decreases sources.len() - i,
{
    if i < 0 || i >= sources.len() {
        None
    } else if policy.source_flaw(profile, sources[i]) is Some {
        policy.source_flaw(profile, sources[i])
    } else {
        first_denial(policy, profile, sources, i + 1)
    }
}

/// The projection that a policy allows a profile to see.
pub open spec fn allowed_projection(
    id: ProjectionId,
    task_key: Seq<char>,
    profile: ProfileView,
    policy: PolicyView,
    sources: Seq<SourceView>,
    created_at: TimestampMillis,
) -> Result<ProjectionView, ContextErrorView> {
    if !policy.is_for(profile) {
        Err(ContextErrorView::ProfilePolicyMismatch)
    } else if sources.len() == 0 {
        Err(ContextErrorView::EmptyProjection)
    } else if first_denial(policy, profile, sources, 0) is Some {
        Err(first_denial(policy, profile, sources, 0)->0)
    } else {
        projection_of(
            id,
            policy.workspace_id,
            task_key,
            profile.id,
            profile.revision,
            policy.revision,
            by_id(exacts(sources)),
            created_at,
            None,
        )
    }
}

/// The model of a projection, or why there is none.
pub open spec fn projection_view(r: Result<TaskProjection, ContextError>) -> Result<
    ProjectionView,
    ContextErrorView,
> {
    match r {
        Ok(p) => Ok(p@),
        Err(e) => Err(e@),
    }
}

/// The first reason, from source `i` on, why a shown source is denied.
pub open spec fn first_shown_flaw(policy: PolicyView, sources: Seq<ProjectedView>, i: int) -> Option<
    ContextErrorView,
>
    decreases sources.len() - i,
{
    if i < 0 || i >= sources.len() {
        None
    } else if policy.content_flaw(sources[i].classification, sources[i].compartments) is Some {
        policy.content_flaw(sources[i].classification, sources[i].compartments)
    } else {
        first_shown_flaw(policy, sources, i + 1)
    }
}

impl ProjectionView {
    /// Why the projection may not be shown to a profile under a policy.
    pub open spec fn flaw_for(self, profile: ProfileView, policy: PolicyView) -> Option<
        ContextErrorView,
    > {
        if text_digest(self.serialized_payload) != self.digest {
            Some(ContextErrorView::DigestMismatch)
        } else if !policy.is_for(profile) {
            Some(ContextErrorView::ProfilePolicyMismatch)
        } else if self.workspace_id != policy.workspace_id || self.model_profile_id != profile.id
            || self.model_profile_revision != profile.revision || self.policy_revision
            != policy.revision {
            Some(ContextErrorView::ProjectionBindingMismatch)
        } else {
            first_shown_flaw(policy, self.sources, 0)
        }
    }

    /// The JSON value of the audit payload.
    pub open spec fn audit_json(self) -> JsonView {
        JsonView::Object(
            no_fields().push(("classification"@, JsonView::Str(class_name(self.classification)))).push(
                ("model_profile_id"@, JsonView::Str(self.model_profile_id)),
            ).push(("model_profile_revision"@, JsonView::Int(capped(self.model_profile_revision)))).push(
                ("policy_revision"@, JsonView::Int(capped(self.policy_revision))),
            ).push(("projection_digest"@, JsonView::Str(self.digest))).push(
                ("projection_id"@, JsonView::Str(uuid_text(self.id.value))),
            ),
        )
    }
}

/// The number, or the greatest signed one.
pub open spec fn capped(n: u64) -> int {
    if n <= i64::MAX {
        n as int
    } else {
        i64::MAX as int
    }
}

fn capped_i64(n: u64) -> (r: i64)
    ensures
        r == capped(n),
{
    if n <= i64::MAX as u64 {
        n as i64
    } else {
        i64::MAX
    }
}

fn entry(key: &str, value: CanonicalValue) -> (r: (String, CanonicalValue))
    ensures
        r.0@ == key@,
        r.1@ == value@,
{
    (key.to_owned(), value)
}

impl TaskProjection {
    /// The projection of sources that the policy allows the profile to see.
    pub fn build(
        id: ProjectionId,
        task_key: ProjectionTaskKey,
        profile: &ModelProfile,
        policy: &ModelDataPolicy,
        sources: Vec<ContextSource>,
        created_at: TimestampMillis,
    ) -> (r: Result<TaskProjection, ContextError>)
        ensures
            projection_view(r) == allowed_projection(
                id,
                task_key@,
                profile@,
                policy@,
                views(sources@),
                created_at,
            ),
    {
        let ghost all = views(sources@);
        match policy.validate_profile(profile) {
            Ok(()) => {},
            Err(e) => {
                return Err(e);
            },
        }
        if sources.len() == 0 {
            return Err(ContextError::EmptyProjection);
        }
        let mut projected: Vec<ProjectedSource> = Vec::new();
        let ghost shown = exacts(all);
        proof {
            assert(shown.take(0) =~= Seq::<ProjectedView>::empty());
            assert(views(projected@) =~= by_id(shown.take(0)));
        }
        let mut i: usize = 0;
        while i < sources.len()
            invariant
                i <= sources@.len(),
                all == views(sources@),
                shown == exacts(all),
                all.len() > 0,
                policy@.is_for(profile@),
                first_denial(policy@, profile@, all, 0) == first_denial(
                    policy@,
                    profile@,
                    all,
                    i as int,
                ),
                views(projected@) == by_id(shown.take(i as int)),
            decreases sources@.len() - i,
        {
            proof {
                assert(all[i as int] == sources@[i as int]@);
                assert(shown.take(i + 1).drop_last() =~= shown.take(i as int));
                assert(shown.take(i + 1).last() == shown[i as int]);
            }
            match policy.allows_source(profile, &sources[i]) {
                Ok(()) => {},
                Err(e) => {
                    return Err(e);
                },
            }
            place(&mut projected, ProjectedSource::exact(&sources[i]));
            i += 1;
        }
        proof {
            assert(shown.take(i as int) =~= shown);
        }
        TaskProjection::from_projected_sources(
            id,
            policy.workspace_id(),
            task_key,
            profile.id().clone(),
            profile.revision(),
            policy.revision(),
            projected,
            created_at,
            None,
        )
    }

    /// The projection with the given parts, as they were stored, if they still
    /// have the digest that was stored with them.
    pub fn from_stored_parts(
        id: ProjectionId,
        workspace_id: WorkspaceId,
        task_key: ProjectionTaskKey,
        model_profile_id: ModelProfileId,
        model_profile_revision: u64,
        policy_revision: u64,
        sources: Vec<ContextSource>,
        created_at: TimestampMillis,
        expected_digest: ContextDigest,
    ) -> (r: Result<TaskProjection, ContextError>)
        ensures
            projection_view(r) == if !all_in_workspace(views(sources@), workspace_id) {
                Err(ContextErrorView::WorkspaceMismatch)
            } else {
                projection_of(
                    id,
                    workspace_id,
                    task_key@,
                    model_profile_id@,
                    model_profile_revision,
                    policy_revision,
                    exacts(views(sources@)),
                    created_at,
                    Some(expected_digest@),
                )
            },
    {
        let ghost all = views(sources@);
        let mut projected: Vec<ProjectedSource> = Vec::new();
        let mut i: usize = 0;
        while i < sources.len()
            invariant
                i <= sources@.len(),
                all == views(sources@),
                forall|k: int| 0 <= k < i ==> (#[trigger] all[k]).workspace_id == workspace_id,
                projected@.len() == i,
                forall|k: int| 0 <= k < i ==> (#[trigger] projected@[k])@ == exactly(all[k]),
            decreases sources@.len() - i,
        {
            proof {
                assert(all[i as int] == sources@[i as int]@);
            }
            if sources[i].workspace_id() != workspace_id {
                proof {
                    assert(all[i as int].workspace_id != workspace_id);
                }
                return Err(ContextError::WorkspaceMismatch);
            }
            projected.push(ProjectedSource::exact(&sources[i]));
            i += 1;
        }
        proof {
            assert(views(projected@) =~= exacts(all));
        }
        TaskProjection::from_projected_sources(
            id,
            workspace_id,
            task_key,
            model_profile_id,
            model_profile_revision,
            policy_revision,
            projected,
            created_at,
            Some(expected_digest),
        )
    }

    fn from_projected_sources(
        id: ProjectionId,
        workspace_id: WorkspaceId,
        task_key: ProjectionTaskKey,
        model_profile_id: ModelProfileId,
        model_profile_revision: u64,
        policy_revision: u64,
        sources: Vec<ProjectedSource>,
        created_at: TimestampMillis,
        expected_digest: Option<ContextDigest>,
    ) -> (r: Result<TaskProjection, ContextError>)
        ensures
            projection_view(r) == projection_of(
                id,
                workspace_id,
                task_key@,
                model_profile_id@,
                model_profile_revision,
                policy_revision,
                views(sources@),
                created_at,
                match expected_digest {
                    Some(d) => Some(d@),
                    None => None,
                },
            ),
    {
        let ghost all = views(sources@);
        if sources.len() == 0 || model_profile_revision == 0 || policy_revision == 0 {
            return Err(ContextError::InvalidProjection);
        }
        if !no_secret(&sources) {
            return Err(ContextError::SecretSourceDenied);
        }
        if !ids_differ(&sources) {
            return Err(ContextError::InvalidProjection);
        }
        let mut classification = sources[0].classification;
        let mut list: Vec<String> = Vec::new();
        let ghost lists = shown_compartments(all);
        let ghost kinds = shown_classes(all);
        proof {
            assert(all[0] == sources@[0]@);
            assert(kinds[0] == all[0].classification);
            assert(texts(list@) =~= Seq::<Seq<char>>::empty());
            assert(stricter(classification, kinds[0]) == classification);
        }
        let mut k: usize = 0;
        while k < sources.len()
            invariant
                k <= sources@.len(),
                all == views(sources@),
                lists == shown_compartments(all),
                kinds == shown_classes(all),
                all.len() > 0,
                strictest(kinds, 1, all[0].classification) == strictest(
                    kinds,
                    k as int,
                    classification,
                ),
                all_texts(lists, 0) == texts(list@) + all_texts(lists, k as int),
            decreases sources@.len() - k,
        {
            proof {
                assert(all[k as int] == sources@[k as int]@);
                assert(lists[k as int] == all[k as int].compartments);
                assert(kinds[k as int] == all[k as int].classification);
            }
            let ghost before = texts(list@);
            classification = most_restrictive(classification, sources[k].classification);
            extend(&mut list, &sources[k].compartments);
            proof {
                assert(before + all_texts(lists, k as int) =~= texts(list@) + all_texts(
                    lists,
                    k + 1,
                ));
            }
            k += 1;
        }
        proof {
            assert(texts(list@) + all_texts(lists, k as int) =~= texts(list@));
        }
        let compartments = TextSet::from_list(list);
        let serialized_payload = serialize_projection_payload(
            id,
            workspace_id,
            &task_key,
            &model_profile_id,
            model_profile_revision,
            policy_revision,
            &sources,
        );
        let digest = ContextDigest::from_text(serialized_payload.as_str());
        if let Some(expected) = &expected_digest {
            if !expected.same(&digest) {
                return Err(ContextError::DigestMismatch);
            }
        }
        Ok(
            TaskProjection {
                id,
                workspace_id,
                task_key,
                model_profile_id,
                model_profile_revision,
                policy_revision,
                sources,
                classification,
                compartments,
                created_at,
                serialized_payload,
                digest,
            },
        )
    }

    /// The identity.
    pub fn id(&self) -> (r: ProjectionId)
        ensures
            r == self@.id,
    {
        self.id
    }

    /// The workspace.
    pub fn workspace_id(&self) -> (r: WorkspaceId)
        ensures
            r == self@.workspace_id,
    {
        self.workspace_id
    }

    /// The task.
    pub fn task_key(&self) -> (r: &ProjectionTaskKey)
        ensures
            r@ == self@.task_key,
    {
        &self.task_key
    }

    /// The profile that it is for.
    pub fn model_profile_id(&self) -> (r: &ModelProfileId)
        ensures
            r@ == self@.model_profile_id,
    {
        &self.model_profile_id
    }

    /// The revision of the profile.
    pub fn model_profile_revision(&self) -> (r: u64)
        ensures
            r == self@.model_profile_revision,
    {
        self.model_profile_revision
    }

    /// The revision of the policy.
    pub fn policy_revision(&self) -> (r: u64)
        ensures
            r == self@.policy_revision,
    {
        self.policy_revision
    }

    /// The sources.
    pub fn sources(&self) -> (r: &Vec<ProjectedSource>)
        ensures
            views(r@) == self@.sources,
    {
        &self.sources
    }

    /// The class of the most sensitive source.
    pub fn classification(&self) -> (r: DataClass)
        ensures
            r == self@.classification,
    {
        self.classification
    }

    /// The compartments of the sources.
    pub fn compartments(&self) -> (r: &TextSet)
        ensures
            r@ == self@.compartments,
    {
        &self.compartments
    }

    /// When it was made.
    pub fn created_at(&self) -> (r: TimestampMillis)
        ensures
            r == self@.created_at,
    {
        self.created_at
    }

    /// The text that the model is shown.
    pub fn serialized_payload(&self) -> (r: &str)
        ensures
            r@ == self@.serialized_payload,
    {
        self.serialized_payload.as_str()
    }

    /// The digest of the text.
    pub fn digest(&self) -> (r: &ContextDigest)
        ensures
            r@ == self@.digest,
    {
        &self.digest
    }

    /// Checks that the digest is that of the payload.
    pub fn verify_digest(&self) -> (r: Result<(), ContextError>)
        ensures
            flaw_of(r) == if text_digest(self@.serialized_payload) == self@.digest {
                None
            } else {
                Some(ContextErrorView::DigestMismatch)
            },
    {
        if !ContextDigest::from_text(self.serialized_payload.as_str()).same(&self.digest) {
            return Err(ContextError::DigestMismatch);
        }
        Ok(())
    }

    /// Checks that the projection may be shown to a profile under a policy.
    pub fn validate_for(&self, profile: &ModelProfile, policy: &ModelDataPolicy) -> (r: Result<
        (),
        ContextError,
    >)
        ensures
            flaw_of(r) == self@.flaw_for(profile@, policy@),
    {
        match self.verify_digest() {
            Ok(()) => {},
            Err(e) => {
                return Err(e);
            },
        }
        match policy.validate_profile(profile) {
            Ok(()) => {},
            Err(e) => {
                return Err(e);
            },
        }
        if self.workspace_id != policy.workspace_id() || !str_eq(
            self.model_profile_id.as_str(),
            profile.id().as_str(),
        ) || self.model_profile_revision != profile.revision() || self.policy_revision
            != policy.revision() {
            return Err(ContextError::ProjectionBindingMismatch);
        }
        let ghost shown = self@.sources;
        let mut i: usize = 0;
        while i < self.sources.len()
            invariant
                i <= self.sources@.len(),
                shown == self@.sources,
                shown == views(self.sources@),
                first_shown_flaw(policy@, shown, 0) == first_shown_flaw(policy@, shown, i as int),
                self@.flaw_for(profile@, policy@) == first_shown_flaw(policy@, shown, 0),
            decreases self.sources@.len() - i,
        {
            proof {
                assert(shown[i as int] == self.sources@[i as int]@);
            }
            match policy.allows_content(
                self.sources[i].classification,
                &self.sources[i].compartments,
            ) {
                Ok(()) => {},
                Err(e) => {
                    return Err(e);
                },
            }
            i += 1;
        }
        Ok(())
    }

    /// What an audit record says of the projection. It holds no content.
    pub fn audit_payload(&self) -> (r: CanonicalValue)
        ensures
            r@ == self@.audit_json(),
    {
        let mut m: Vec<(String, CanonicalValue)> = Vec::new();
        m.push(
            entry("classification", CanonicalValue::text(data_class_str(self.classification))),
        );
        m.push(entry("model_profile_id", CanonicalValue::text(self.model_profile_id.as_str())));
        m.push(
            entry(
                "model_profile_revision",
                CanonicalValue::Integer(capped_i64(self.model_profile_revision)),
            ),
        );
        m.push(
            entry("policy_revision", CanonicalValue::Integer(capped_i64(self.policy_revision))),
        );
        m.push(entry("projection_digest", CanonicalValue::text(self.digest.as_str())));
        m.push(entry("projection_id", CanonicalValue::String(self.id.to_text())));
        let ghost list = m@;
        let r = CanonicalValue::Object(m);
        proof {
            assert(list[0].1@ == JsonView::Str(class_name(self@.classification)));
            assert(list[1].1@ == JsonView::Str(self@.model_profile_id));
            assert(list[2].1@ == JsonView::Int(capped(self@.model_profile_revision)));
            assert(list[3].1@ == JsonView::Int(capped(self@.policy_revision)));
            assert(list[4].1@ == JsonView::Str(self@.digest));
            assert(list[5].1@ == JsonView::Str(uuid_text(self@.id.value)));
            assert(r@->Object_0 =~= self@.audit_json()->Object_0);
        }
        r
    }
}

fn no_secret(sources: &Vec<ProjectedSource>) -> (r: bool)
    ensures
        r == !has_secret(views(sources@)),
{
    let ghost all = views(sources@);
    let mut i: usize = 0;
    while i < sources.len()
        invariant
            i <= sources@.len(),
            all == views(sources@),
            forall|k: int| 0 <= k < i ==> (#[trigger] all[k]).classification != DataClass::Secret,
        decreases sources@.len() - i,
    {
        proof {
            assert(all[i as int] == sources@[i as int]@);
        }
        if sources[i].classification == DataClass::Secret {
            return false;
        }
        i += 1;
    }
    true
}

fn ids_differ(sources: &Vec<ProjectedSource>) -> (r: bool)
    ensures
        r == distinct_ids(views(sources@)),
{
    let ghost all = views(sources@);
    let mut i: usize = 0;
    while i < sources.len()
        invariant
            i <= sources@.len(),
            all == views(sources@),
            forall|a: int, b: int|
                #![trigger all[a], all[b]]
                0 <= a < b < i ==> all[a].source_id != all[b].source_id,
        decreases sources@.len() - i,
    {
        let mut j: usize = 0;
        while j < i
            invariant
                j <= i < sources@.len(),
                all == views(sources@),
                forall|a: int|
                    0 <= a < j ==> (#[trigger] all[a]).source_id != all[i as int].source_id,
            decreases i - j,
        {
            proof {
                assert(all[i as int] == sources@[i as int]@);
                assert(all[j as int] == sources@[j as int]@);
            }
            if sources[j].source_id == sources[i].source_id {
                return false;
            }
            j += 1;
        }
        i += 1;
    }
    true
}

/// Why a provider may not be shown a projection.
pub open spec fn port_flaw(
    provider: ProviderView,
    profile: ProfileView,
    policy: PolicyView,
    projection: ProjectionView,
) -> Option<ContextErrorView> {
    match binding_flaw(provider, profile) {
        Some(message) => Some(
            ContextErrorView::ProviderBinding(
                (ProviderErrorView { kind: ProviderErrorKind::Configuration, message }).text(),
            ),
        ),
        None => projection.flaw_for(profile, policy),
    }
}

/// Checks that a provider may be shown a projection.
pub fn validate_port(
    provider: &ProviderConfig,
    profile: &ModelProfile,
    policy: &ModelDataPolicy,
    projection: &TaskProjection,
) -> (r: Result<(), ContextError>)
    ensures
        flaw_of(r) == port_flaw(provider@, profile@, policy@, projection@),
{
    match validate_binding(provider, profile) {
        Ok(()) => {},
        Err(e) => {
            return Err(ContextError::ProviderBinding(e.to_text()));
        },
    }
    projection.validate_for(profile, policy)
}

/// Why an input may not be sent along with a projection.
pub open spec fn input_flaw(
    projection: ProjectionView,
    profile: ProfileView,
    policy: PolicyView,
    input: InputView,
) -> Option<ContextErrorView> {
    if projection.flaw_for(profile, policy) is Some {
        projection.flaw_for(profile, policy)
    } else if input.data_class == DataClass::Secret || !policy.allowed_data_classes.contains(
        input.data_class,
    ) {
        Some(ContextErrorView::DataClassDenied)
    } else if input.messages.len() > 0 && !policy.allow_uncompartmented {
        Some(ContextErrorView::CompartmentDenied)
    } else {
        None
    }
}

/// The message that shows a projection.
pub open spec fn projection_message(projection: ProjectionView) -> MessageView {
    MessageView {
        role: ModelRole::User,
        content: JsonView::Str(projection.serialized_payload),
        tool_call: None,
        tool_call_id: None,
    }
}

/// An input with the projection in front, as sensitive as both.
pub open spec fn secured(projection: ProjectionView, input: InputView) -> InputView {
    InputView {
        messages: Seq::<MessageView>::empty().push(projection_message(projection))
            + input.messages,
        data_class: stricter(input.data_class, projection.classification),
        tools: input.tools,
        generation: None,
    }
}

/// Puts the projection in front of an input, if the policy allows both.
pub fn secure_input(
    projection: &TaskProjection,
    profile: &ModelProfile,
    policy: &ModelDataPolicy,
    input: ModelInput,
) -> (r: Result<ModelInput, ContextError>)
    ensures
        match r {
            Ok(i) => input_flaw(projection@, profile@, policy@, input@) is None && i@ == secured(
                projection@,
                input@,
            ),
            Err(e) => input_flaw(projection@, profile@, policy@, input@) == Some(e@),
        },
{
    match projection.validate_for(profile, policy) {
        Ok(()) => {},
        Err(e) => {
            return Err(e);
        },
    }
    let class = input.data_class();
    if class == DataClass::Secret || !has_class(policy.allowed_data_classes(), class) {
        return Err(ContextError::DataClassDenied);
    }
    if input.messages().len() > 0 && !policy.allow_uncompartmented() {
        return Err(ContextError::CompartmentDenied);
    }
    let effective = most_restrictive(class, projection.classification);
    let first = ModelMessage::new(
        ModelRole::User,
        CanonicalValue::String(projection.serialized_payload.clone()),
    );
    Ok(input.preceded_by(first, effective))
}

/// A projection that was built under a policy may be shown under it, to the
/// profile that it was built for.
pub proof fn built_projections_may_be_shown(
    id: ProjectionId,
    task_key: Seq<char>,
    profile: ProfileView,
    policy: PolicyView,
    sources: Seq<SourceView>,
    created_at: TimestampMillis,
)
    ensures
        allowed_projection(id, task_key, profile, policy, sources, created_at) matches Ok(p)
            ==> p.flaw_for(profile, policy) is None,
{
    if let Ok(p) = allowed_projection(id, task_key, profile, policy, sources, created_at) {
        nothing_denied(policy, profile, sources, 0);
        let shown = exacts(sources);
        ordering_keeps_the_sources(shown);
        assert forall|k: int| 0 <= k < p.sources.len() implies policy.content_flaw(
            (#[trigger] p.sources[k]).classification,
            p.sources[k].compartments,
        ) is None by {
            assert(p.sources.contains(p.sources[k]));
            assert(shown.contains(p.sources[k]));
            let i = choose|i: int| 0 <= i < shown.len() && shown[i] == p.sources[k];
            assert(policy.source_flaw(profile, sources[i]) is None);
        }
        nothing_flawed(policy, p.sources, 0);
    }
}

proof fn nothing_denied(
    policy: PolicyView,
    profile: ProfileView,
    sources: Seq<SourceView>,
    from: int,
)
    requires
        0 <= from,
        first_denial(policy, profile, sources, from) is None,
    ensures
        forall|i: int|
            from <= i < sources.len() ==> policy.source_flaw(
                profile,
                #[trigger] sources[i],
            ) is None,
    decreases sources.len() - from,
{
    if from < sources.len() {
        nothing_denied(policy, profile, sources, from + 1);
    }
}

proof fn nothing_flawed(policy: PolicyView, sources: Seq<ProjectedView>, from: int)
    requires
        0 <= from,
    ensures
        first_shown_flaw(policy, sources, from) is None <==> forall|k: int|
            from <= k < sources.len() ==> policy.content_flaw(
                (#[trigger] sources[k]).classification,
                sources[k].compartments,
            ) is None,
    decreases sources.len() - from,
{
    if from < sources.len() {
        nothing_flawed(policy, sources, from + 1);
    }
}

/// What may be shown holds no secret, and only classes and compartments that
/// the policy allows.
pub proof fn shown_projections_are_allowed(
    p: ProjectionView,
    profile: ProfileView,
    policy: PolicyView,
    k: int,
)
    requires
        p.flaw_for(profile, policy) is None,
        0 <= k < p.sources.len(),
    ensures
        p.sources[k].classification != DataClass::Secret,
        policy.allowed_data_classes.contains(p.sources[k].classification),
        all_within(p.sources[k].compartments, policy.allowed_compartments),
{
    nothing_flawed(policy, p.sources, 0);
    assert(policy.content_flaw(p.sources[k].classification, p.sources[k].compartments) is None);
}

/// A projection is at least as sensitive as each of its sources, in all of
/// their compartments, and never secret.
pub proof fn projections_keep_taint(
    id: ProjectionId,
    workspace_id: WorkspaceId,
    task_key: Seq<char>,
    model_profile_id: Seq<char>,
    model_profile_revision: u64,
    policy_revision: u64,
    sources: Seq<ProjectedView>,
    created_at: TimestampMillis,
    expected: Option<Seq<char>>,
    i: int,
)
    requires
        0 <= i < sources.len(),
    ensures
        projection_of(
            id,
            workspace_id,
            task_key,
            model_profile_id,
            model_profile_revision,
            policy_revision,
            sources,
            created_at,
            expected,
        ) matches Ok(p) ==> {
            &&& sources[i].classification.rank() <= p.classification.rank()
            &&& sources[i].classification != DataClass::Secret
            &&& all_within(sources[i].compartments, p.compartments)
        },
{
    let kinds = shown_classes(sources);
    let lists = shown_compartments(sources);
    strictest_bounds(kinds, 1, sources[0].classification);
    assert(kinds[i] == sources[i].classification);
    texts_reach(lists, 0, i);
    text_set_members(all_texts(lists, 0));
    assert(lists[i] == sources[i].compartments);
}

/// What was stored of a projection gives it back with its own digest, and is
/// refused with any other.
pub proof fn stored_projections_are_restored(
    id: ProjectionId,
    workspace_id: WorkspaceId,
    task_key: Seq<char>,
    model_profile_id: Seq<char>,
    model_profile_revision: u64,
    policy_revision: u64,
    sources: Seq<ProjectedView>,
    created_at: TimestampMillis,
    digest: Seq<char>,
)
    ensures
        projection_of(
            id,
            workspace_id,
            task_key,
            model_profile_id,
            model_profile_revision,
            policy_revision,
            sources,
            created_at,
            None,
        ) matches Ok(p) ==> projection_of(
            id,
            workspace_id,
            task_key,
            model_profile_id,
            model_profile_revision,
            policy_revision,
            sources,
            created_at,
            Some(digest),
        ) == (if digest == p.digest {
            Ok(p)
        } else {
            Err(ContextErrorView::DigestMismatch)
        }),
{
}

/// The strictly ascending order of the identities.
pub open spec fn ids_climb(s: Seq<ProjectedView>) -> bool {
    forall|i: int, j: int|
        #![trigger s[i], s[j]]
        0 <= i < j < s.len() ==> s[i].source_id.value < s[j].source_id.value
}

/// Of two lists of the same sources, both have distinct identities or neither.
proof fn distinct_ids_stay(a: Seq<ProjectedView>, b: Seq<ProjectedView>)
    requires
        a.to_multiset() == b.to_multiset(),
        distinct_ids(a),
    ensures
        distinct_ids(b),
{
    broadcast use vstd::seq_lib::group_to_multiset_ensures;

    assert(a.no_duplicates());
    a.lemma_multiset_has_no_duplicates();
    b.lemma_multiset_has_no_duplicates_conv();
    assert forall|i: int, j: int|
        #![trigger b[i], b[j]]
        0 <= i < j < b.len() implies b[i].source_id != b[j].source_id by {
        assert(b.contains(b[i]));
        assert(b.contains(b[j]));
        assert(b.to_multiset().count(b[i]) > 0);
        assert(b.to_multiset().count(b[j]) > 0);
        let k = choose|k: int| 0 <= k < a.len() && a[k] == b[i];
        let l = choose|l: int| 0 <= l < a.len() && a[l] == b[j];
        assert(b[i] != b[j]);
        assert(k != l);
        if k < l {
            assert(a[k].source_id != a[l].source_id);
        } else {
            assert(a[l].source_id != a[k].source_id);
        }
    }
}

/// Two lists with strictly ascending identities and the same members are
/// equal.
proof fn climbing_lists_are_unique(a: Seq<ProjectedView>, b: Seq<ProjectedView>)
    requires
        ids_climb(a),
        ids_climb(b),
        forall|x: ProjectedView| #[trigger] a.contains(x) <==> b.contains(x),
    ensures
        a == b,
    decreases a.len(),
{
    if a.len() == 0 {
        if b.len() > 0 {
            assert(a.contains(b[0]));
        }
        assert(a =~= b);
    } else {
        let x = a.last();
        assert(a[a.len() - 1] == x);
        assert(a.contains(x));
        let k = choose|k: int| 0 <= k < b.len() && b[k] == x;
        let y = b.last();
        assert(b[b.len() - 1] == y);
        assert(a.contains(y));
        let l = choose|l: int| 0 <= l < a.len() && a[l] == y;
        if k < b.len() - 1 {
            assert(b[k].source_id.value < b[b.len() - 1].source_id.value);
            if l < a.len() - 1 {
                assert(a[l].source_id.value < a[a.len() - 1].source_id.value);
            }
        }
        assert(x == y);
        let c = a.drop_last();
        let d = b.drop_last();
        assert forall|t: ProjectedView| #[trigger] c.contains(t) <==> d.contains(t) by {
            if c.contains(t) {
                let i = choose|i: int| 0 <= i < c.len() && c[i] == t;
                assert(a[i].source_id.value < a[a.len() - 1].source_id.value);
                assert(a.contains(t));
                let j = choose|j: int| 0 <= j < b.len() && b[j] == t;
                assert(d[j] == t);
            }
            if d.contains(t) {
                let j = choose|j: int| 0 <= j < d.len() && d[j] == t;
                assert(b[j].source_id.value < b[b.len() - 1].source_id.value);
                assert(a.contains(t));
                let i = choose|i: int| 0 <= i < a.len() && a[i] == t;
                assert(c[i] == t);
            }
        }
        climbing_lists_are_unique(c, d);
        assert(a =~= c.push(x));
        assert(b =~= d.push(y));
    }
}

proof fn ordered_and_distinct_climbs(s: Seq<ProjectedView>)
    requires
        ids_ascend(s),
        distinct_ids(s),
    ensures
        ids_climb(s),
{
    assert forall|i: int, j: int|
        #![trigger s[i], s[j]]
        0 <= i < j < s.len() implies s[i].source_id.value < s[j].source_id.value by {
        assert(s[i].source_id != s[j].source_id);
    }
}

proof fn denied_by_one(
    policy: PolicyView,
    profile: ProfileView,
    sources: Seq<SourceView>,
    from: int,
) -> (i: int)
    requires
        0 <= from,
        first_denial(policy, profile, sources, from) is Some,
    ensures
        from <= i < sources.len(),
        policy.source_flaw(profile, sources[i]) is Some,
    decreases sources.len() - from,
{
    if policy.source_flaw(profile, sources[from]) is Some {
        from
    } else {
        denied_by_one(policy, profile, sources, from + 1)
    }
}

proof fn order_leaves_the_projection(
    id: ProjectionId,
    task_key: Seq<char>,
    profile: ProfileView,
    policy: PolicyView,
    sources: Seq<SourceView>,
    others: Seq<SourceView>,
    created_at: TimestampMillis,
)
    requires
        sources.to_multiset() == others.to_multiset(),
        allowed_projection(id, task_key, profile, policy, sources, created_at) is Ok,
    ensures
        allowed_projection(id, task_key, profile, policy, sources, created_at)
            == allowed_projection(id, task_key, profile, policy, others, created_at),
{
    broadcast use vstd::seq_lib::group_to_multiset_ensures;

    assert(sources.to_multiset().len() == others.to_multiset().len());
    nothing_denied(policy, profile, sources, 0);
    if first_denial(policy, profile, others, 0) is Some {
        let i = denied_by_one(policy, profile, others, 0);
        assert(others.contains(others[i]));
        assert(others.to_multiset().count(others[i]) > 0);
        assert(sources.contains(others[i]));
        let k = choose|k: int| 0 <= k < sources.len() && sources[k] == others[i];
        assert(policy.source_flaw(profile, sources[k]) is None);
    }
    let show = |s: SourceView| exactly(s);
    mapping_keeps_items(sources, others, show);
    assert(exacts(sources) =~= sources.map_values(show));
    assert(exacts(others) =~= others.map_values(show));
    ordering_keeps_the_sources(exacts(sources));
    ordering_keeps_the_sources(exacts(others));
    let a = by_id(exacts(sources));
    let b = by_id(exacts(others));
    distinct_ids_stay(a, b);
    ordered_and_distinct_climbs(a);
    ordered_and_distinct_climbs(b);
    assert forall|x: ProjectedView| #[trigger] a.contains(x) <==> b.contains(x) by {
        assert(a.to_multiset().count(x) == b.to_multiset().count(x));
    }
    climbing_lists_are_unique(a, b);
}

/// The order in which sources are given decides nothing about a projection:
/// any other order gives a projection exactly if this one does, and the same.
pub proof fn projections_ignore_source_order(
    id: ProjectionId,
    task_key: Seq<char>,
    profile: ProfileView,
    policy: PolicyView,
    sources: Seq<SourceView>,
    others: Seq<SourceView>,
    created_at: TimestampMillis,
)
    requires
        sources.to_multiset() == others.to_multiset(),
    ensures
        ({
            let a = allowed_projection(id, task_key, profile, policy, sources, created_at);
            let b = allowed_projection(id, task_key, profile, policy, others, created_at);
            (a is Ok <==> b is Ok) && (a is Ok ==> a == b)
        }),
{
    if allowed_projection(id, task_key, profile, policy, sources, created_at) is Ok {
        order_leaves_the_projection(id, task_key, profile, policy, sources, others, created_at);
    }
    if allowed_projection(id, task_key, profile, policy, others, created_at) is Ok {
        order_leaves_the_projection(id, task_key, profile, policy, others, sources, created_at);
    }
}

/// A built projection shows each given source exactly once, by strictly
/// ascending identity, and each of them is allowed. Its class is the most
/// sensitive class among them, its compartments are theirs, and its digest is
/// that of its payload.
pub proof fn built_projections_show_their_sources(
    id: ProjectionId,
    task_key: Seq<char>,
    profile: ProfileView,
    policy: PolicyView,
    sources: Seq<SourceView>,
    created_at: TimestampMillis,
)
    ensures
        allowed_projection(id, task_key, profile, policy, sources, created_at) matches Ok(p) ==> {
            &&& p.sources.to_multiset() == exacts(sources).to_multiset()
            &&& ids_climb(p.sources)
            &&& forall|i: int|
                0 <= i < sources.len() ==> policy.source_flaw(
                    profile,
                    #[trigger] sources[i],
                ) is None
            &&& shown_classes(p.sources).contains(p.classification)
            &&& forall|i: int|
                0 <= i < p.sources.len() ==> (#[trigger] p.sources[i]).classification.rank()
                    <= p.classification.rank()
            &&& sorted_texts(p.compartments)
            &&& forall|c: Seq<char>| #[trigger]
                p.compartments.contains(c) <==> exists|i: int|
                    0 <= i < p.sources.len() && (#[trigger] p.sources[i]).compartments.contains(c)
            &&& p.digest == text_digest(p.serialized_payload)
        },
{
    if let Ok(p) = allowed_projection(id, task_key, profile, policy, sources, created_at) {
        nothing_denied(policy, profile, sources, 0);
        ordering_keeps_the_sources(exacts(sources));
        ordered_and_distinct_climbs(p.sources);
        let kinds = shown_classes(p.sources);
        strictest_bounds(kinds, 1, kinds[0]);
        strictest_is_one(kinds, 1, kinds[0]);
        assert(kinds[0] == p.sources[0].classification);
        if p.classification == kinds[0] {
            assert(kinds.contains(kinds[0]));
        }
        assert forall|i: int| 0 <= i < p.sources.len() implies (
        #[trigger] p.sources[i]).classification.rank() <= p.classification.rank() by {
            assert(kinds[i] == p.sources[i].classification);
        }
        let lists = shown_compartments(p.sources);
        text_set_members(all_texts(lists, 0));
        assert forall|c: Seq<char>| #[trigger] p.compartments.contains(c) <==> exists|i: int|
            0 <= i < p.sources.len() && (#[trigger] p.sources[i]).compartments.contains(c) by {
            if p.compartments.contains(c) {
                let i = texts_come_from_one(lists, 0, c);
                assert(lists[i] == p.sources[i].compartments);
            }
            if exists|i: int|
                0 <= i < p.sources.len() && (#[trigger] p.sources[i]).compartments.contains(c) {
                let i = choose|i: int|
                    0 <= i < p.sources.len() && (#[trigger] p.sources[i]).compartments.contains(c);
                texts_reach(lists, 0, i);
                assert(lists[i] == p.sources[i].compartments);
                let k = choose|k: int| 0 <= k < lists[i].len() && lists[i][k] == c;
                assert(all_texts(lists, 0).contains(lists[i][k]));
            }
        }
    }
}

proof fn projected_sources_are_told_apart(a: ProjectedView, b: ProjectedView)
    requires
        a.json() == b.json(),
    ensures
        b == (ProjectedView { transform: b.transform, ..a }),
{
    let x = a.json()->Object_0;
    let y = b.json()->Object_0;
    assert(x[0].1 == y[0].1);
    assert(x[1].1 == y[1].1);
    assert(x[2].1 == y[2].1);
    assert(x[3].1 == y[3].1);
    assert(x[4].1 == y[4].1);
    assert(x[5].1 == y[5].1);
    assert(x[7].1 == y[7].1);
    uuid_text_is_injective(a.source_id.value, b.source_id.value);
    class_names_differ(a.classification, b.classification);
    text_items_are_told_apart(a.compartments, b.compartments);
    source_provenance_kind_names_differ(a.provenance.kind, b.provenance.kind);
}

/// The payload that a model is shown holds the whole projection: whose it is,
/// for which task, profile and policy, and every source, with its content, its
/// class, its compartments and where it comes from, in order.
pub proof fn payloads_hold_the_projection(
    id: ProjectionId,
    workspace_id: WorkspaceId,
    task_key: Seq<char>,
    model_profile_id: Seq<char>,
    model_profile_revision: u64,
    policy_revision: u64,
    sources: Seq<ProjectedView>,
    other: ProjectionView,
)
    requires
        payload_json(
            id,
            workspace_id,
            task_key,
            model_profile_id,
            model_profile_revision,
            policy_revision,
            sources,
        ) == payload_json(
            other.id,
            other.workspace_id,
            other.task_key,
            other.model_profile_id,
            other.model_profile_revision,
            other.policy_revision,
            other.sources,
        ),
    ensures
        id == other.id,
        workspace_id == other.workspace_id,
        task_key == other.task_key,
        model_profile_id == other.model_profile_id,
        model_profile_revision == other.model_profile_revision,
        policy_revision == other.policy_revision,
        sources.len() == other.sources.len(),
        forall|i: int|
            0 <= i < sources.len() ==> {
                let s = #[trigger] sources[i];
                let t = other.sources[i];
                &&& s.source_id == t.source_id && s.source_digest == t.source_digest
                &&& s.classification == t.classification && s.compartments == t.compartments
                &&& s.provenance == t.provenance && s.content == t.content
            },
{
    let x = payload_json(
        id,
        workspace_id,
        task_key,
        model_profile_id,
        model_profile_revision,
        policy_revision,
        sources,
    )->Object_0;
    let y = payload_json(
        other.id,
        other.workspace_id,
        other.task_key,
        other.model_profile_id,
        other.model_profile_revision,
        other.policy_revision,
        other.sources,
    )->Object_0;
    assert(x[1].1 == y[1].1);
    assert(x[2].1 == y[2].1);
    assert(x[3].1 == y[3].1);
    assert(x[4].1 == y[4].1);
    assert(x[5].1 == y[5].1);
    assert(x[6].1 == y[6].1);
    assert(x[7].1 == y[7].1);
    uuid_text_is_injective(id.value, other.id.value);
    uuid_text_is_injective(workspace_id.value, other.workspace_id.value);
    let c = x[7].1->Array_0;
    let d = y[7].1->Array_0;
    assert(c == sources_json(sources) && d == sources_json(other.sources));
    assert(c.len() == sources.len() && d.len() == other.sources.len());
    assert forall|i: int| 0 <= i < sources.len() implies {
        let s = #[trigger] sources[i];
        let t = other.sources[i];
        &&& s.source_id == t.source_id && s.source_digest == t.source_digest
        &&& s.classification == t.classification && s.compartments == t.compartments
        &&& s.provenance == t.provenance && s.content == t.content
    } by {
        assert(c[i] == d[i]);
        projected_sources_are_told_apart(sources[i], other.sources[i]);
    }
}

/// A projection is made exactly if it has a source, its revisions are not zero,
/// no source is secret, no two share an identity, and it has the digest that is
/// expected, if one is. It holds what was given, and its payload is that of what
/// was given.
pub proof fn projections_hold_what_was_given(
    id: ProjectionId,
    workspace_id: WorkspaceId,
    task_key: Seq<char>,
    model_profile_id: Seq<char>,
    model_profile_revision: u64,
    policy_revision: u64,
    sources: Seq<ProjectedView>,
    created_at: TimestampMillis,
    expected: Option<Seq<char>>,
)
    ensures
        ({
            let r = projection_of(
                id,
                workspace_id,
                task_key,
                model_profile_id,
                model_profile_revision,
                policy_revision,
                sources,
                created_at,
                expected,
            );
            let payload = plain(
                payload_json(
                    id,
                    workspace_id,
                    task_key,
                    model_profile_id,
                    model_profile_revision,
                    policy_revision,
                    sources,
                ),
            );
            &&& r is Ok <==> {
                &&& sources.len() > 0 && model_profile_revision > 0 && policy_revision > 0
                &&& forall|i: int|
                    0 <= i < sources.len() ==> (#[trigger] sources[i]).classification
                        != DataClass::Secret
                &&& forall|i: int, j: int|
                    #![trigger sources[i], sources[j]]
                    0 <= i < j < sources.len() ==> sources[i].source_id != sources[j].source_id
                &&& expected is None || expected == Some(text_digest(payload))
            }
            &&& r matches Ok(p) ==> {
                &&& p.id == id && p.workspace_id == workspace_id && p.task_key == task_key
                &&& p.model_profile_id == model_profile_id
                &&& p.model_profile_revision == model_profile_revision
                &&& p.policy_revision == policy_revision && p.created_at == created_at
                &&& p.sources == sources
                &&& p.serialized_payload == payload && p.digest == text_digest(payload)
            }
        }),
{
}

/// A source is projected as it is: with its identity, digest, class,
/// compartments, provenance and content.
pub proof fn sources_are_projected_as_they_are(s: SourceView)
    ensures
        exactly(s).source_id == s.id,
        exactly(s).source_digest == s.digest,
        exactly(s).classification == s.classification,
        exactly(s).compartments == s.compartments,
        exactly(s).provenance == s.provenance,
        exactly(s).content == s.content,
{
}

/// A projection may be shown to a profile exactly if its payload has its digest,
/// the policy is for that very profile, which is in use, the projection was made
/// for this workspace, profile and policy in these very revisions, and the
/// policy admits each of its sources.
pub proof fn projections_are_shown_exactly_if_allowed(
    p: ProjectionView,
    profile: ProfileView,
    policy: PolicyView,
)
    ensures
        p.flaw_for(profile, policy) is None <==> {
            &&& text_digest(p.serialized_payload) == p.digest
            &&& profile.enabled && policy.model_profile_id == profile.id
            &&& policy.model_profile_revision == profile.revision
            &&& policy.model_trust_zone == profile.trust_zone
            &&& p.workspace_id == policy.workspace_id
            &&& p.model_profile_id == profile.id && p.model_profile_revision == profile.revision
            &&& p.policy_revision == policy.revision
            &&& forall|i: int|
                0 <= i < p.sources.len() ==> {
                    let s = #[trigger] p.sources[i];
                    &&& s.classification != DataClass::Secret
                    &&& policy.allowed_data_classes.contains(s.classification)
                    &&& s.compartments.len() == 0 ==> policy.allow_uncompartmented
                    &&& forall|c: int|
                        0 <= c < s.compartments.len() ==> policy.allowed_compartments.contains(
                            #[trigger] s.compartments[c],
                        )
                }
        },
{
    shown_flaws(policy, p.sources, 0);
    if first_shown_flaw(policy, p.sources, 0) is None {
        assert forall|i: int| 0 <= i < p.sources.len() implies {
            let s = #[trigger] p.sources[i];
            &&& s.classification != DataClass::Secret
            &&& policy.allowed_data_classes.contains(s.classification)
            &&& s.compartments.len() == 0 ==> policy.allow_uncompartmented
            &&& forall|c: int|
                0 <= c < s.compartments.len() ==> policy.allowed_compartments.contains(
                    #[trigger] s.compartments[c],
                )
        } by {
            assert(policy.content_flaw(
                p.sources[i].classification,
                p.sources[i].compartments,
            ) is None);
        }
    } else {
        let i = choose|i: int|
            0 <= i < p.sources.len() && policy.content_flaw(
                (#[trigger] p.sources[i]).classification,
                p.sources[i].compartments,
            ) is Some;
        let s = p.sources[i];
        if s.classification != DataClass::Secret && policy.allowed_data_classes.contains(
            s.classification,
        ) && s.compartments.len() > 0 {
            assert(!all_within(s.compartments, policy.allowed_compartments));
        }
    }
}

proof fn shown_flaws(policy: PolicyView, sources: Seq<ProjectedView>, from: int)
    requires
        0 <= from <= sources.len(),
    ensures
        first_shown_flaw(policy, sources, from) is None <==> forall|i: int|
            from <= i < sources.len() ==> policy.content_flaw(
                (#[trigger] sources[i]).classification,
                sources[i].compartments,
            ) is None,
    decreases sources.len() - from,
{
    if from < sources.len() {
        shown_flaws(policy, sources, from + 1);
        if forall|i: int|
            from <= i < sources.len() ==> policy.content_flaw(
                (#[trigger] sources[i]).classification,
                sources[i].compartments,
            ) is None {
            assert(policy.content_flaw(
                sources[from].classification,
                sources[from].compartments,
            ) is None);
        }
    }
}

/// An input is secured exactly if the projection may be shown, the class of the
/// input is allowed and not secret, and, where it brings messages of its own,
/// the policy admits what is in no compartment. It then leads with the payload
/// of the projection, as a user's message, keeps all else in order, and is as
/// sensitive as the more sensitive of the two.
pub proof fn secured_inputs_lead_with_the_projection(
    projection: ProjectionView,
    profile: ProfileView,
    policy: PolicyView,
    input: InputView,
    i: int,
)
    ensures
        input_flaw(projection, profile, policy, input) is None <==> {
            &&& projection.flaw_for(profile, policy) is None
            &&& input.data_class != DataClass::Secret
            &&& policy.allowed_data_classes.contains(input.data_class)
            &&& input.messages.len() > 0 ==> policy.allow_uncompartmented
        },
        ({
            let s = secured(projection, input);
            &&& s.messages.len() == input.messages.len() + 1
            &&& s.messages[0].role == ModelRole::User
            &&& s.messages[0].content == JsonView::Str(projection.serialized_payload)
            &&& s.messages[0].tool_call is None && s.messages[0].tool_call_id is None
            &&& 0 <= i < input.messages.len() ==> s.messages[i + 1] == input.messages[i]
            &&& s.tools == input.tools
            &&& s.data_class.rank() >= input.data_class.rank()
            &&& s.data_class.rank() >= projection.classification.rank()
            &&& s.data_class == input.data_class || s.data_class == projection.classification
        }),
{
}

/// What is recorded of a projection tells which it was, what it says, how it is
/// classed and for which revisions it was made, as far as these can be written.
pub proof fn recorded_values_tell_projections_apart(a: ProjectionView, b: ProjectionView)
    requires
        a.audit_json() == b.audit_json(),
    ensures
        a.id == b.id,
        a.digest == b.digest,
        a.classification == b.classification,
        a.model_profile_id == b.model_profile_id,
        a.model_profile_revision < i64::MAX ==> b.model_profile_revision
            == a.model_profile_revision,
        a.policy_revision < i64::MAX ==> b.policy_revision == a.policy_revision,
{
    let x = a.audit_json()->Object_0;
    let y = b.audit_json()->Object_0;
    assert(x[0].1 == y[0].1);
    assert(x[1].1 == y[1].1);
    assert(x[2].1 == y[2].1);
    assert(x[3].1 == y[3].1);
    assert(x[4].1 == y[4].1);
    assert(x[5].1 == y[5].1);
    class_names_differ(a.classification, b.classification);
    uuid_text_is_injective(a.id.value, b.id.value);
}

/// A provider may be shown a projection exactly if the profile is bound to it
/// and the projection may be shown to the profile under the policy.
pub proof fn providers_are_shown_what_their_profile_may_see(
    provider: ProviderView,
    profile: ProfileView,
    policy: PolicyView,
    projection: ProjectionView,
)
    ensures
        port_flaw(provider, profile, policy, projection) is None <==> binding_flaw(
            provider,
            profile,
        ) is None && projection.flaw_for(profile, policy) is None,
        binding_flaw(provider, profile) is None ==> port_flaw(
            provider,
            profile,
            policy,
            projection,
        ) == projection.flaw_for(profile, policy),
{
}

} // verus!
