//! Capabilities: what may be done, and to which resource.

use crate::identity::WorkspaceId;
use crate::ids::{uuid_text, uuid_text_is_injective, uuid_to_text};
use crate::json::{no_fields, no_members, object, put, string, Json, JsonView};
use crate::lists::views;
use crate::text::{
    chars_lack, concat, debug_string, debug_text, is_control, is_plain_text, lacks, lacks_control,
    no_control, pieces_decide_prefixes,
    pieces_determine_texts, plain_text, split, split_chars, str_eq, str_lt, surround, text_lt,
    text_lt_irreflexive, text_lt_total, text_lt_transitive, texts, to_chars,
};
use vstd::prelude::*;

verus! {

/// The name of a capability.
#[derive(Clone, Copy, Debug, PartialEq, Eq, PartialOrd, Ord, Hash, Structural)]
pub enum CapabilityName {
    FsRead,
    FsWrite,
    FsDelete,
    ProcessSpawn,
    NetConnect,
    SecretUse,
    MessageSend,
    ScheduleCreate,
    ScheduleModify,
    PluginInstall,
    PluginUpdate,
    PluginEnable,
    PolicyModify,
}

impl CapabilityName {
    /// The name on the wire.
    pub open spec fn name(self) -> Seq<char> {
        match self {
            CapabilityName::FsRead => "fs.read"@,
            CapabilityName::FsWrite => "fs.write"@,
            CapabilityName::FsDelete => "fs.delete"@,
            CapabilityName::ProcessSpawn => "process.spawn"@,
            CapabilityName::NetConnect => "net.connect"@,
            CapabilityName::SecretUse => "secret.use"@,
            CapabilityName::MessageSend => "message.send"@,
            CapabilityName::ScheduleCreate => "schedule.create"@,
            CapabilityName::ScheduleModify => "schedule.modify"@,
            CapabilityName::PluginInstall => "plugin.install"@,
            CapabilityName::PluginUpdate => "plugin.update"@,
            CapabilityName::PluginEnable => "plugin.enable"@,
            CapabilityName::PolicyModify => "policy.modify"@,
        }
    }

    /// The name on the wire.
    pub fn as_str(self) -> (r: &'static str)
        ensures
            r@ == self.name(),
    {
        match self {
            CapabilityName::FsRead => "fs.read",
            CapabilityName::FsWrite => "fs.write",
            CapabilityName::FsDelete => "fs.delete",
            CapabilityName::ProcessSpawn => "process.spawn",
            CapabilityName::NetConnect => "net.connect",
            CapabilityName::SecretUse => "secret.use",
            CapabilityName::MessageSend => "message.send",
            CapabilityName::ScheduleCreate => "schedule.create",
            CapabilityName::ScheduleModify => "schedule.modify",
            CapabilityName::PluginInstall => "plugin.install",
            CapabilityName::PluginUpdate => "plugin.update",
            CapabilityName::PluginEnable => "plugin.enable",
            CapabilityName::PolicyModify => "policy.modify",
        }
    }
}

impl CapabilityName {
    /// The diagnostic text.
    pub open spec fn debug(self) -> Seq<char> {
        match self {
            CapabilityName::FsRead => "FsRead"@,
            CapabilityName::FsWrite => "FsWrite"@,
            CapabilityName::FsDelete => "FsDelete"@,
            CapabilityName::ProcessSpawn => "ProcessSpawn"@,
            CapabilityName::NetConnect => "NetConnect"@,
            CapabilityName::SecretUse => "SecretUse"@,
            CapabilityName::MessageSend => "MessageSend"@,
            CapabilityName::ScheduleCreate => "ScheduleCreate"@,
            CapabilityName::ScheduleModify => "ScheduleModify"@,
            CapabilityName::PluginInstall => "PluginInstall"@,
            CapabilityName::PluginUpdate => "PluginUpdate"@,
            CapabilityName::PluginEnable => "PluginEnable"@,
            CapabilityName::PolicyModify => "PolicyModify"@,
        }
    }

    fn debug_str(self) -> (r: &'static str)
        ensures
            r@ == self.debug(),
    {
        match self {
            CapabilityName::FsRead => "FsRead",
            CapabilityName::FsWrite => "FsWrite",
            CapabilityName::FsDelete => "FsDelete",
            CapabilityName::ProcessSpawn => "ProcessSpawn",
            CapabilityName::NetConnect => "NetConnect",
            CapabilityName::SecretUse => "SecretUse",
            CapabilityName::MessageSend => "MessageSend",
            CapabilityName::ScheduleCreate => "ScheduleCreate",
            CapabilityName::ScheduleModify => "ScheduleModify",
            CapabilityName::PluginInstall => "PluginInstall",
            CapabilityName::PluginUpdate => "PluginUpdate",
            CapabilityName::PluginEnable => "PluginEnable",
            CapabilityName::PolicyModify => "PolicyModify",
        }
    }
}

impl CapabilityName {
    /// The position in the order of names.
    pub open spec fn rank(self) -> int {
        match self {
            CapabilityName::FsRead => 0,
            CapabilityName::FsWrite => 1,
            CapabilityName::FsDelete => 2,
            CapabilityName::ProcessSpawn => 3,
            CapabilityName::NetConnect => 4,
            CapabilityName::SecretUse => 5,
            CapabilityName::MessageSend => 6,
            CapabilityName::ScheduleCreate => 7,
            CapabilityName::ScheduleModify => 8,
            CapabilityName::PluginInstall => 9,
            CapabilityName::PluginUpdate => 10,
            CapabilityName::PluginEnable => 11,
            CapabilityName::PolicyModify => 12,
        }
    }

    fn rank_of(self) -> (r: u8)
        ensures
            r == self.rank(),
    {
        match self {
            CapabilityName::FsRead => 0,
            CapabilityName::FsWrite => 1,
            CapabilityName::FsDelete => 2,
            CapabilityName::ProcessSpawn => 3,
            CapabilityName::NetConnect => 4,
            CapabilityName::SecretUse => 5,
            CapabilityName::MessageSend => 6,
            CapabilityName::ScheduleCreate => 7,
            CapabilityName::ScheduleModify => 8,
            CapabilityName::PluginInstall => 9,
            CapabilityName::PluginUpdate => 10,
            CapabilityName::PluginEnable => 11,
            CapabilityName::PolicyModify => 12,
        }
    }
}

/// A path in a workspace, relative to its root.
#[derive(Debug, PartialEq, Eq, PartialOrd, Ord, Hash)]
pub struct WorkspacePath {
    value: String,
}

impl View for WorkspacePath {
    type V = Seq<char>;

    closed spec fn view(&self) -> Seq<char> {
        self.value@
    }
}

impl Clone for WorkspacePath {
    fn clone(&self) -> (r: WorkspacePath)
        ensures
            r@ == self@,
    {
        WorkspacePath { value: self.value.clone() }
    }
}

/// A segment of a path: a plain name.
pub open spec fn segment_ok(s: Seq<char>) -> bool {
    s.len() > 0 && s != "."@ && s != ".."@ && no_control(s)
}

/// Every segment between slashes is a plain name.
pub open spec fn segments_ok(s: Seq<char>) -> bool {
    forall|i: int| 0 <= i < split(s, '/').len() ==> segment_ok(#[trigger] split(s, '/')[i])
}

/// Whether every segment between slashes is a plain name.
pub fn has_plain_segments(s: &str) -> (r: bool)
    ensures
        r == segments_ok(s@),
{
    let c = to_chars(s);
    let pieces = split_chars(&c, 0, c.len(), '/');
    let ghost t = split(s@, '/');
    proof {
        assert(c@.subrange(0, c@.len() as int) =~= s@);
    }
    let mut i: usize = 0;
    while i < pieces.len()
        invariant
            i <= pieces@.len(),
            t == split(s@, '/'),
            t == texts(pieces@),
            forall|k: int| 0 <= k < i ==> segment_ok(#[trigger] t[k]),
        decreases pieces@.len() - i,
    {
        let p = pieces[i].as_str();
        if p.is_empty() || str_eq(p, ".") || str_eq(p, "..") || !lacks_control(p) {
            proof {
                assert(!segment_ok(t[i as int]));
            }
            return false;
        }
        i += 1;
    }
    true
}

/// Why a scope is refused.
#[derive(Clone, Debug, PartialEq, Eq)]
pub enum ScopeError {
    InvalidWorkspacePath(String),
    InvalidExactScope,
}

impl ScopeError {
    /// The message of the error.
    pub open spec fn text(self) -> Seq<char> {
        match self {
            ScopeError::InvalidWorkspacePath(s) => "workspace path is not canonical: "@ + s@,
            ScopeError::InvalidExactScope =>
                "exact resource scope fields must be non-empty and free of control characters"@,
        }
    }

    /// The message of the error.
    pub fn message(&self) -> (r: String)
        ensures
            r@ == self.text(),
    {
        match self {
            ScopeError::InvalidWorkspacePath(s) => concat(
                "workspace path is not canonical: ",
                s.as_str(),
            ),
            ScopeError::InvalidExactScope =>
                "exact resource scope fields must be non-empty and free of control characters".to_owned(),
        }
    }
}

/// A canonical path in a workspace: plain segments with single slashes between
/// them, and no backslash. No segment is empty, so no slash stands at an end.
pub open spec fn workspace_path(s: Seq<char>) -> bool {
    lacks(s, '\\') && segments_ok(s)
}

impl WorkspacePath {
    /// Checks and takes a path.
    pub fn parse(value: String) -> (r: Result<WorkspacePath, ScopeError>)
        ensures
            match r {
                Ok(p) => workspace_path(value@) && p@ == value@,
                Err(e) => !workspace_path(value@) && e == ScopeError::InvalidWorkspacePath(value),
            },
    {
        let c = to_chars(value.as_str());
        if !chars_lack(&c, '\\') || !has_plain_segments(value.as_str()) {
            return Err(ScopeError::InvalidWorkspacePath(value));
        }
        Ok(WorkspacePath { value })
    }

    /// The path.
    pub fn as_str(&self) -> (r: &str)
        ensures
            r@ == self@,
    {
        self.value.as_str()
    }

    /// Whether `requested` is this path or below it.
    pub fn contains(&self, requested: &WorkspacePath) -> (r: bool)
        ensures
            r == path_contains(self@, requested@),
    {
        if str_eq(self.value.as_str(), requested.value.as_str()) {
            return true;
        }
        let a = to_chars(self.value.as_str());
        let b = to_chars(requested.value.as_str());
        if a.len() >= b.len() || b[a.len()] != '/' {
            proof {
                if self@.push('/').is_prefix_of(requested@) {
                    assert(requested@.subrange(0, self@.len() as int + 1)[self@.len() as int]
                        == self@.push('/')[self@.len() as int]);
                }
            }
            return false;
        }
        let mut i: usize = 0;
        while i < a.len()
            invariant
                i <= a@.len() < b@.len(),
                a@ == self@,
                b@ == requested@,
                self@ != requested@,
                forall|k: int| 0 <= k < i ==> a@[k] == b@[k],
            decreases a@.len() - i,
        {
            if a[i] != b[i] {
                proof {
                    if self@.push('/').is_prefix_of(requested@) {
                        assert(requested@.subrange(0, self@.len() as int + 1)[i as int]
                            == self@.push('/')[i as int]);
                    }
                }
                return false;
            }
            i += 1;
        }
        proof {
            assert(requested@.subrange(0, self@.len() as int + 1) =~= self@.push('/'));
        }
        true
    }
}

/// `requested` is `path` or below it.
pub open spec fn path_contains(path: Seq<char>, requested: Seq<char>) -> bool {
    requested == path || path.push('/').is_prefix_of(requested)
}

/// The resource of a capability.
#[derive(Debug, PartialEq, Eq, PartialOrd, Ord, Hash)]
pub enum ResourceScope {
    Workspace { workspace_id: WorkspaceId },
    Path { workspace_id: WorkspaceId, path: WorkspacePath },
    Exact { resource_type: String, value: String },
}

/// The model of a `ResourceScope`.
pub enum ResourceView {
    Workspace(WorkspaceId),
    Path(WorkspaceId, Seq<char>),
    Exact(Seq<char>, Seq<char>),
}

impl View for ResourceScope {
    type V = ResourceView;

    open spec fn view(&self) -> ResourceView {
        match *self {
            ResourceScope::Workspace { workspace_id } => ResourceView::Workspace(workspace_id),
            ResourceScope::Path { workspace_id, path } => ResourceView::Path(workspace_id, path@),
            ResourceScope::Exact { resource_type, value } => ResourceView::Exact(
                resource_type@,
                value@,
            ),
        }
    }
}

impl Clone for ResourceScope {
    fn clone(&self) -> (r: ResourceScope)
        ensures
            r@ == self@,
    {
        match self {
            ResourceScope::Workspace { workspace_id } => ResourceScope::Workspace {
                workspace_id: *workspace_id,
            },
            ResourceScope::Path { workspace_id, path } => ResourceScope::Path {
                workspace_id: *workspace_id,
                path: path.clone(),
            },
            ResourceScope::Exact { resource_type, value } => ResourceScope::Exact {
                resource_type: resource_type.clone(),
                value: value.clone(),
            },
        }
    }
}

impl ResourceView {
    /// The scope covers `requested`: a workspace covers itself and its paths,
    /// a path covers itself and what is below it, an exact resource only
    /// itself.
    pub open spec fn covers(self, requested: ResourceView) -> bool {
        match (self, requested) {
            (ResourceView::Workspace(a), ResourceView::Workspace(b)) => a == b,
            (ResourceView::Workspace(a), ResourceView::Path(b, _)) => a == b,
            (ResourceView::Path(a, p), ResourceView::Path(b, q)) => a == b && path_contains(p, q),
            (ResourceView::Exact(_, _), ResourceView::Exact(_, _)) => self == requested,
            _ => false,
        }
    }
}

impl ResourceScope {
    /// A whole workspace.
    pub fn workspace(workspace_id: WorkspaceId) -> (r: ResourceScope)
        ensures
            r@ == ResourceView::Workspace(workspace_id),
    {
        ResourceScope::Workspace { workspace_id }
    }

    /// A path in a workspace.
    pub fn path(workspace_id: WorkspaceId, path: WorkspacePath) -> (r: ResourceScope)
        ensures
            r@ == ResourceView::Path(workspace_id, path@),
    {
        ResourceScope::Path { workspace_id, path }
    }

    /// One resource by its type and value.
    pub fn exact(resource_type: String, value: String) -> (r: Result<ResourceScope, ScopeError>)
        ensures
            match r {
                Ok(s) => plain_text(resource_type@, 4096) && plain_text(value@, 4096) && s@
                    == ResourceView::Exact(resource_type@, value@),
                Err(e) => !(plain_text(resource_type@, 4096) && plain_text(value@, 4096)) && e
                    == ScopeError::InvalidExactScope,
            },
    {
        if !is_plain_text(resource_type.as_str(), 4096) || !is_plain_text(value.as_str(), 4096) {
            return Err(ScopeError::InvalidExactScope);
        }
        Ok(ResourceScope::Exact { resource_type, value })
    }

    /// Whether this scope covers `requested`.
    pub fn contains(&self, requested: &ResourceScope) -> (r: bool)
        ensures
            r == self@.covers(requested@),
    {
        match (self, requested) {
            (
                ResourceScope::Workspace { workspace_id },
                ResourceScope::Workspace { workspace_id: other },
            ) => workspace_id.value == other.value,
            (
                ResourceScope::Workspace { workspace_id },
                ResourceScope::Path { workspace_id: other, .. },
            ) => workspace_id.value == other.value,
            (
                ResourceScope::Path { workspace_id, path },
                ResourceScope::Path { workspace_id: other, path: below },
            ) => workspace_id.value == other.value && path.contains(below),
            (
                ResourceScope::Exact { resource_type, value },
                ResourceScope::Exact { resource_type: other, value: wanted },
            ) => str_eq(resource_type.as_str(), other.as_str()) && str_eq(
                value.as_str(),
                wanted.as_str(),
            ),
            _ => false,
        }
    }
}

/// A scope covers itself, and covering is transitive.
pub proof fn covering_is_transitive(a: ResourceView, b: ResourceView, c: ResourceView)
    ensures
        a.covers(a),
        a.covers(b) && b.covers(c) ==> a.covers(c),
{
    if let (ResourceView::Path(_, p), ResourceView::Path(_, q), ResourceView::Path(_, r)) = (
        a,
        b,
        c,
    ) {
        if a.covers(b) && b.covers(c) && p != q && q != r {
            assert(q.subrange(0, p.len() as int + 1) == p.push('/'));
            assert(r.subrange(0, q.len() as int + 1) == q.push('/'));
            assert forall|i: int| 0 <= i < p.len() + 1 implies r[i] == p.push('/')[i] by {
                assert(r[i] == r.subrange(0, q.len() as int + 1)[i]);
                assert(q.push('/')[i] == q[i]);
                assert(q[i] == q.subrange(0, p.len() as int + 1)[i]);
            }
            assert(r.subrange(0, p.len() as int + 1) =~= p.push('/'));
        }
    }
}

/// A path contains exactly the paths whose segments begin with its own. So it
/// contains itself, what is contained in what it contains, and two paths that
/// contain each other are the same.
pub proof fn containing_is_by_segments(a: Seq<char>, b: Seq<char>, c: Seq<char>)
    ensures
        path_contains(a, b) <==> split(a, '/').is_prefix_of(split(b, '/')),
        path_contains(a, a),
        path_contains(a, b) && path_contains(b, c) ==> path_contains(a, c),
        path_contains(a, b) && path_contains(b, a) ==> a == b,
{
    pieces_decide_prefixes(a, b, '/');
    pieces_decide_prefixes(b, c, '/');
    pieces_decide_prefixes(a, c, '/');
    pieces_decide_prefixes(b, a, '/');
    let p = split(a, '/');
    let q = split(b, '/');
    let r = split(c, '/');
    if p.is_prefix_of(q) && q.is_prefix_of(r) {
        assert(r.subrange(0, p.len() as int) =~= q.subrange(0, p.len() as int)) by {
            assert forall|i: int| 0 <= i < p.len() implies r[i] == q[i] by {
                assert(r.subrange(0, q.len() as int)[i] == r[i]);
            }
        }
    }
    if p.is_prefix_of(q) && q.is_prefix_of(p) {
        pieces_determine_texts(a, b, '/');
    }
}

/// What a scope covers, by the kinds of the two: a workspace covers itself and
/// every path in it, a path covers the paths of its workspace whose segments
/// begin with its own, and an exact resource covers itself alone. Nothing else
/// is covered.
pub proof fn scopes_cover_what_lies_in_them(
    w: WorkspaceId,
    v: WorkspaceId,
    p: Seq<char>,
    q: Seq<char>,
    t: Seq<char>,
    u: Seq<char>,
)
    ensures
        ResourceView::Workspace(w).covers(ResourceView::Workspace(v)) <==> w == v,
        ResourceView::Workspace(w).covers(ResourceView::Path(v, q)) <==> w == v,
        ResourceView::Path(w, p).covers(ResourceView::Path(v, q)) <==> w == v && split(
            p,
            '/',
        ).is_prefix_of(split(q, '/')),
        ResourceView::Exact(p, q).covers(ResourceView::Exact(t, u)) <==> p == t && q == u,
        !ResourceView::Path(w, p).covers(ResourceView::Workspace(v)),
        !ResourceView::Workspace(w).covers(ResourceView::Exact(t, u)),
        !ResourceView::Path(w, p).covers(ResourceView::Exact(t, u)),
        !ResourceView::Exact(p, q).covers(ResourceView::Workspace(w)),
        !ResourceView::Exact(p, q).covers(ResourceView::Path(w, t)),
{
    containing_is_by_segments(p, q, q);
}

/// A capability: a name and a resource.
#[derive(Debug, PartialEq, Eq, PartialOrd, Ord, Hash)]
pub struct Capability {
    name: CapabilityName,
    scope: ResourceScope,
}

/// The model of a `Capability`.
pub struct CapabilityView {
    pub name: CapabilityName,
    pub scope: ResourceView,
}

impl View for Capability {
    type V = CapabilityView;

    closed spec fn view(&self) -> CapabilityView {
        CapabilityView { name: self.name, scope: self.scope@ }
    }
}

impl Clone for Capability {
    fn clone(&self) -> (r: Capability)
        ensures
            r@ == self@,
    {
        Capability { name: self.name, scope: self.scope.clone() }
    }
}

impl CapabilityView {
    /// Holding this capability allows `requested`.
    pub open spec fn allows(self, requested: CapabilityView) -> bool {
        self.name == requested.name && self.scope.covers(requested.scope)
    }

    /// The order of capabilities: by name, then by kind of resource, then by
    /// its parts.
    pub open spec fn lt(self, other: CapabilityView) -> bool {
        self.name.rank() < other.name.rank() || (self.name == other.name && scope_lt(
            self.scope,
            other.scope,
        ))
    }

    /// The JSON value.
    pub open spec fn json(self) -> JsonView {
        JsonView::Object(
            no_fields().push(("name"@, JsonView::Str(self.name.name()))).push(
                ("scope"@, scope_json(self.scope)),
            ),
        )
    }
}

/// The order of resources.
pub open spec fn scope_lt(a: ResourceView, b: ResourceView) -> bool {
    match (a, b) {
        (ResourceView::Workspace(x), ResourceView::Workspace(y)) => x.value < y.value,
        (ResourceView::Workspace(_), _) => true,
        (ResourceView::Path(_, _), ResourceView::Workspace(_)) => false,
        (ResourceView::Path(x, p), ResourceView::Path(y, q)) => x.value < y.value || (x.value
            == y.value && text_lt(p, q)),
        (ResourceView::Path(_, _), ResourceView::Exact(_, _)) => true,
        (ResourceView::Exact(t, v), ResourceView::Exact(u, w)) => text_lt(t, u) || (t == u
            && text_lt(v, w)),
        (ResourceView::Exact(_, _), _) => false,
    }
}

/// The JSON value of a resource.
pub open spec fn scope_json(s: ResourceView) -> JsonView {
    JsonView::Object(
        match s {
            ResourceView::Workspace(w) => no_fields().push(
                ("type"@, JsonView::Str("workspace"@)),
            ).push(("workspace_id"@, JsonView::Str(uuid_text(w.value)))),
            ResourceView::Path(w, p) => no_fields().push(("type"@, JsonView::Str("path"@))).push(
                ("workspace_id"@, JsonView::Str(uuid_text(w.value))),
            ).push(("path"@, JsonView::Str(p))),
            ResourceView::Exact(t, v) => no_fields().push(("type"@, JsonView::Str("exact"@))).push(
                ("resource_type"@, JsonView::Str(t)),
            ).push(("value"@, JsonView::Str(v))),
        },
    )
}

/// The order of capabilities is strict and total.
pub proof fn order_is_total(a: CapabilityView, b: CapabilityView, c: CapabilityView)
    ensures
        !a.lt(a),
        a.lt(b) && b.lt(c) ==> a.lt(c),
        a != b ==> a.lt(b) || b.lt(a),
{
    scope_order(a.scope, b.scope, c.scope);
}

proof fn scope_order(a: ResourceView, b: ResourceView, c: ResourceView)
    ensures
        !scope_lt(a, a),
        scope_lt(a, b) && scope_lt(b, c) ==> scope_lt(a, c),
        a != b ==> scope_lt(a, b) || scope_lt(b, a),
{
    match a {
        ResourceView::Workspace(_) => {},
        ResourceView::Path(_, p) => {
            text_lt_irreflexive(p);
            if let ResourceView::Path(_, q) = b {
                if p != q {
                    text_lt_total(p, q);
                }
                if let ResourceView::Path(_, r) = c {
                    if text_lt(p, q) && text_lt(q, r) {
                        text_lt_transitive(p, q, r);
                    }
                }
            }
        },
        ResourceView::Exact(t, v) => {
            text_lt_irreflexive(t);
            text_lt_irreflexive(v);
            if let ResourceView::Exact(u, w) = b {
                if t != u {
                    text_lt_total(t, u);
                }
                if v != w {
                    text_lt_total(v, w);
                }
                if let ResourceView::Exact(x, y) = c {
                    if text_lt(t, u) && text_lt(u, x) {
                        text_lt_transitive(t, u, x);
                    }
                    if text_lt(v, w) && text_lt(w, y) {
                        text_lt_transitive(v, w, y);
                    }
                }
            }
        },
    }
}

/// The capabilities ascend: each stands once.
pub open spec fn ascending(c: Seq<CapabilityView>) -> bool {
    forall|i: int, j: int| #![trigger c[i], c[j]] 0 <= i < j < c.len() ==> c[i].lt(c[j])
}

/// Two ascending lists with the same capabilities are the same list.
pub proof fn ascending_lists_are_unique(a: Seq<CapabilityView>, b: Seq<CapabilityView>)
    requires
        ascending(a),
        ascending(b),
        forall|c: CapabilityView| #[trigger] a.contains(c) <==> b.contains(c),
    ensures
        a == b,
    decreases a.len(),
{
    if a.len() == 0 {
        if b.len() > 0 {
            assert(b.contains(b[0]));
            assert(a.contains(b[0]));
        }
        assert(a =~= b);
    } else {
        assert(a.contains(a.last()));
        assert(b.contains(a.last()));
        assert(b.contains(b.last()));
        assert(a.contains(b.last()));
        let i = choose|i: int| 0 <= i < b.len() && b[i] == a.last();
        let j = choose|j: int| 0 <= j < a.len() && a[j] == b.last();
        if a.last() != b.last() {
            assert(b[i].lt(b[b.len() - 1]));
            assert(a[j].lt(a[a.len() - 1]));
            order_is_total(a.last(), b.last(), a.last());
        }
        let a1 = a.drop_last();
        let b1 = b.drop_last();
        assert forall|x: CapabilityView| #[trigger] a1.contains(x) <==> b1.contains(x) by {
            order_is_total(x, x, x);
            if a1.contains(x) {
                let k = choose|k: int| 0 <= k < a1.len() && a1[k] == x;
                assert(a[k] == x);
                assert(a[k].lt(a[a.len() - 1]));
                assert(a.contains(x));
                let m = choose|m: int| 0 <= m < b.len() && b[m] == x;
                assert(b1[m] == x);
            }
            if b1.contains(x) {
                let k = choose|k: int| 0 <= k < b1.len() && b1[k] == x;
                assert(b[k] == x);
                assert(b[k].lt(b[b.len() - 1]));
                assert(b.contains(x));
                assert(a.contains(x));
                let m = choose|m: int| 0 <= m < a.len() && a[m] == x;
                assert(a1[m] == x);
            }
        }
        assert(ascending(a1)) by {
            assert forall|x: int, y: int|
                #![trigger a1[x], a1[y]]
                0 <= x < y < a1.len() implies a1[x].lt(a1[y]) by {
                assert(a[x].lt(a[y]));
            }
        }
        assert(ascending(b1)) by {
            assert forall|x: int, y: int|
                #![trigger b1[x], b1[y]]
                0 <= x < y < b1.len() implies b1[x].lt(b1[y]) by {
                assert(b[x].lt(b[y]));
            }
        }
        ascending_lists_are_unique(a1, b1);
        assert(a =~= a1.push(a.last()));
        assert(b =~= b1.push(b.last()));
    }
}

impl Capability {
    /// A capability.
    pub fn new(name: CapabilityName, scope: ResourceScope) -> (r: Capability)
        ensures
            r@ == (CapabilityView { name, scope: scope@ }),
    {
        Capability { name, scope }
    }

    /// The name.
    pub fn name(&self) -> (r: CapabilityName)
        ensures
            r == self@.name,
    {
        self.name
    }

    /// The resource.
    pub fn scope(&self) -> (r: &ResourceScope)
        ensures
            r@ == self@.scope,
    {
        &self.scope
    }

    /// Whether holding this capability allows `requested`.
    pub fn allows(&self, requested: &Capability) -> (r: bool)
        ensures
            r == self@.allows(requested@),
    {
        self.name == requested.name && self.scope.contains(&requested.scope)
    }

    fn before(&self, other: &Capability) -> (r: bool)
        ensures
            r == self@.lt(other@),
    {
        let a = self.name.rank_of();
        let b = other.name.rank_of();
        if a != b {
            return a < b;
        }
        proof {
            assert(self.name == other.name);
        }
        match (&self.scope, &other.scope) {
            (
                ResourceScope::Workspace { workspace_id: x },
                ResourceScope::Workspace { workspace_id: y },
            ) => x.value < y.value,
            (ResourceScope::Workspace { .. }, _) => true,
            (ResourceScope::Path { .. }, ResourceScope::Workspace { .. }) => false,
            (
                ResourceScope::Path { workspace_id: x, path: p },
                ResourceScope::Path { workspace_id: y, path: q },
            ) => x.value < y.value || (x.value == y.value && str_lt(p.as_str(), q.as_str())),
            (ResourceScope::Path { .. }, ResourceScope::Exact { .. }) => true,
            (
                ResourceScope::Exact { resource_type: t, value: v },
                ResourceScope::Exact { resource_type: u, value: w },
            ) => str_lt(t.as_str(), u.as_str()) || (str_eq(t.as_str(), u.as_str()) && str_lt(
                v.as_str(),
                w.as_str(),
            )),
            (ResourceScope::Exact { .. }, _) => false,
        }
    }

    /// The JSON value.
    pub fn to_json(&self) -> (r: Json)
        ensures
            r@ == self@.json(),
    {
        let mut s = no_members();
        match &self.scope {
            ResourceScope::Workspace { workspace_id } => {
                put(&mut s, "type", string("workspace"));
                put(&mut s, "workspace_id", Json::Str(workspace_id.to_text()));
            },
            ResourceScope::Path { workspace_id, path } => {
                put(&mut s, "type", string("path"));
                put(&mut s, "workspace_id", Json::Str(workspace_id.to_text()));
                put(&mut s, "path", string(path.as_str()));
            },
            ResourceScope::Exact { resource_type, value } => {
                put(&mut s, "type", string("exact"));
                put(&mut s, "resource_type", string(resource_type.as_str()));
                put(&mut s, "value", string(value.as_str()));
            },
        }
        let mut m = no_members();
        put(&mut m, "name", string(self.name.as_str()));
        put(&mut m, "scope", object(s));
        object(m)
    }
}

/// The capabilities of a list in ascending order, each once.
pub fn ordered_capabilities(list: Vec<Capability>) -> (r: Vec<Capability>)
    ensures
        ascending(views(r@)),
        forall|c: CapabilityView| #[trigger] views(r@).contains(c) <==> views(list@).contains(c),
{
    let mut out: Vec<Capability> = Vec::new();
    let ghost all = views(list@);
    let mut k: usize = 0;
    proof {
        assert(views(out@) =~= Seq::<CapabilityView>::empty());
    }
    while k < list.len()
        invariant
            k <= list@.len(),
            all == views(list@),
            ascending(views(out@)),
            forall|c: CapabilityView| #[trigger]
                views(out@).contains(c) <==> all.take(k as int).contains(c),
        decreases list@.len() - k,
    {
        let ghost before = views(out@);
        let ghost cv = list@[k as int]@;
        insert_capability(&mut out, list[k].clone());
        proof {
            let now = all.take(k + 1);
            let was = all.take(k as int);
            assert(now =~= was.push(cv));
            assert forall|c: CapabilityView| #[trigger]
                views(out@).contains(c) <==> now.contains(c) by {
                assert(before.contains(c) <==> was.contains(c));
                if was.contains(c) {
                    let i = choose|i: int| 0 <= i < was.len() && was[i] == c;
                    assert(now[i] == c);
                }
                assert(now[k as int] == cv);
                if now.contains(c) && c != cv {
                    let i = choose|i: int| 0 <= i < now.len() && now[i] == c;
                    assert(was[i] == c);
                }
            }
        }
        k += 1;
    }
    proof {
        assert(all.take(k as int) =~= all);
    }
    out
}

fn insert_capability(list: &mut Vec<Capability>, c: Capability)
    requires
        ascending(views(old(list)@)),
    ensures
        ascending(views(final(list)@)),
        forall|x: CapabilityView| #[trigger]
            views(final(list)@).contains(x) <==> views(old(list)@).contains(x) || x == c@,
{
    let ghost before = views(list@);
    let ghost cv = c@;
    let mut i: usize = 0;
    while i < list.len() && list[i].before(&c)
        invariant
            i <= list@.len(),
            list@ == old(list)@,
            before == views(list@),
            cv == c@,
            ascending(before),
            forall|k: int| 0 <= k < i ==> (#[trigger] before[k]).lt(cv),
        decreases list@.len() - i,
    {
        i += 1;
    }
    if i < list.len() && !c.before(&list[i]) {
        proof {
            order_is_total(before[i as int], cv, cv);
            assert(before[i as int] == cv);
            assert(before.contains(cv));
        }
        return;
    }
    list.insert(i, c);
    proof {
        let after = views(list@);
        assert(after =~= before.insert(i as int, cv));
        assert forall|a: int, b: int|
            #![trigger after[a], after[b]]
            0 <= a < b < after.len() implies after[a].lt(after[b]) by {
            if b < i {
                assert(before[a].lt(before[b]));
            } else if b == i {
                assert(before[a].lt(cv));
            } else if a < i {
                assert(before[a].lt(before[b - 1]));
            } else if a == i {
                if b - 1 > i {
                    assert(before[i as int].lt(before[b - 1]));
                    order_is_total(cv, before[i as int], before[b - 1]);
                }
            } else {
                assert(before[a - 1].lt(before[b - 1]));
            }
        }
        assert forall|x: CapabilityView| #[trigger]
            after.contains(x) <==> before.contains(x) || x == cv by {
            assert(after[i as int] == cv);
            if before.contains(x) {
                let k = choose|k: int| 0 <= k < before.len() && before[k] == x;
                if k < i {
                    assert(after[k] == x);
                } else {
                    assert(after[k + 1] == x);
                }
            }
            if after.contains(x) && x != cv {
                let k = choose|k: int| 0 <= k < after.len() && after[k] == x;
                if k < i {
                    assert(before[k] == x);
                } else {
                    assert(before[k - 1] == x);
                }
            }
        }
    }
}

impl ResourceView {
    /// The diagnostic text.
    pub open spec fn debug(self) -> Seq<char> {
        match self {
            ResourceView::Workspace(w) => "Workspace { workspace_id: WorkspaceId("@ + uuid_text(
                w.value,
            ) + ") }"@,
            ResourceView::Path(w, path) => "Path { workspace_id: WorkspaceId("@ + uuid_text(
                w.value,
            ) + "), path: WorkspacePath("@ + debug_text(path) + ") }"@,
            ResourceView::Exact(kind, value) => "Exact { resource_type: "@ + debug_text(kind)
                + ", value: "@ + debug_text(value) + " }"@,
        }
    }
}

impl CapabilityView {
    /// The diagnostic text.
    pub open spec fn debug(self) -> Seq<char> {
        "Capability { name: "@ + self.name.debug() + ", scope: "@ + self.scope.debug() + " }"@
    }
}

impl ResourceScope {
    fn debug(&self) -> (r: String)
        ensures
            r@ == self@.debug(),
    {
        match self {
            ResourceScope::Workspace { workspace_id } => surround(
                "Workspace { workspace_id: WorkspaceId(",
                uuid_to_text(workspace_id.value).as_str(),
                ") }",
            ),
            ResourceScope::Path { workspace_id, path } => {
                let mut out = surround(
                    "Path { workspace_id: WorkspaceId(",
                    uuid_to_text(workspace_id.value).as_str(),
                    "), path: WorkspacePath(",
                );
                out.append(debug_string(path.as_str()).as_str());
                out.append(") }");
                out
            },
            ResourceScope::Exact { resource_type, value } => {
                let mut out = surround(
                    "Exact { resource_type: ",
                    debug_string(resource_type.as_str()).as_str(),
                    ", value: ",
                );
                out.append(debug_string(value.as_str()).as_str());
                out.append(" }");
                out
            },
        }
    }
}

impl Capability {
    /// The diagnostic text.
    pub fn debug(&self) -> (r: String)
        ensures
            r@ == self@.debug(),
    {
        let mut out = surround("Capability { name: ", self.name.debug_str(), ", scope: ");
        out.append(self.scope.debug().as_str());
        out.append(" }");
        out
    }
}

/// A set of granted capabilities.
#[derive(Clone, Debug, PartialEq, Eq)]
pub struct CapabilitySet {
    grants: Vec<Capability>,
}

impl View for CapabilitySet {
    type V = Seq<CapabilityView>;

    closed spec fn view(&self) -> Seq<CapabilityView> {
        views(self.grants@)
    }
}

/// Some grant allows `requested`.
pub open spec fn set_allows(grants: Seq<CapabilityView>, requested: CapabilityView) -> bool {
    exists|i: int| 0 <= i < grants.len() && (#[trigger] grants[i]).allows(requested)
}

impl CapabilitySet {
    /// The set of the given capabilities.
    pub fn new(capabilities: Vec<Capability>) -> (r: CapabilitySet)
        ensures
            ascending(r@),
            forall|c: CapabilityView| #[trigger]
                r@.contains(c) <==> views(capabilities@).contains(c),
    {
        CapabilitySet { grants: ordered_capabilities(capabilities) }
    }

    /// Whether some grant allows `requested`.
    pub fn allows(&self, requested: &Capability) -> (r: bool)
        ensures
            r == set_allows(self@, requested@),
    {
        let mut i: usize = 0;
        while i < self.grants.len()
            invariant
                i <= self.grants@.len(),
                self@.len() == self.grants@.len(),
                forall|k: int| 0 <= k < i ==> !(#[trigger] self@[k]).allows(requested@),
            decreases self.grants@.len() - i,
        {
            proof {
                assert(self@[i as int] == self.grants@[i as int]@);
            }
            if self.grants[i].allows(requested) {
                proof {
                    assert(self@[i as int].allows(requested@));
                }
                return true;
            }
            i += 1;
        }
        false
    }
}

impl Default for CapabilitySet {
    fn default() -> (r: CapabilitySet)
        ensures
            r@ == Seq::<CapabilityView>::empty(),
    {
        let r = CapabilitySet { grants: Vec::new() };
        proof {
            assert(r@ =~= Seq::<CapabilityView>::empty());
        }
        r
    }
}

/// Layers of capabilities. What every layer allows is allowed.
#[derive(Clone, Debug, PartialEq, Eq)]
pub struct EffectiveCapabilities {
    layers: Vec<CapabilitySet>,
}

impl View for EffectiveCapabilities {
    type V = Seq<Seq<CapabilityView>>;

    closed spec fn view(&self) -> Seq<Seq<CapabilityView>> {
        views(self.layers@)
    }
}

impl Default for EffectiveCapabilities {
    fn default() -> (r: EffectiveCapabilities)
        ensures
            r@ == Seq::<Seq<CapabilityView>>::empty(),
    {
        let r = EffectiveCapabilities { layers: Vec::new() };
        proof {
            assert(r@ =~= Seq::<Seq<CapabilityView>>::empty());
        }
        r
    }
}

/// There is a layer, and every layer allows `requested`.
pub open spec fn layers_allow(
    layers: Seq<Seq<CapabilityView>>,
    requested: CapabilityView,
) -> bool {
    layers.len() > 0 && forall|i: int|
        0 <= i < layers.len() ==> set_allows(#[trigger] layers[i], requested)
}

impl EffectiveCapabilities {
    /// The given layers.
    pub fn new(layers: Vec<CapabilitySet>) -> (r: EffectiveCapabilities)
        ensures
            r@ == views(layers@),
    {
        EffectiveCapabilities { layers }
    }

    /// Whether every layer allows `requested`. Without layers nothing is
    /// allowed.
    pub fn allows(&self, requested: &Capability) -> (r: bool)
        ensures
            r == layers_allow(self@, requested@),
    {
        if self.layers.len() == 0 {
            return false;
        }
        let mut i: usize = 0;
        while i < self.layers.len()
            invariant
                i <= self.layers@.len(),
                self@.len() == self.layers@.len(),
                self@.len() > 0,
                forall|k: int| 0 <= k < i ==> set_allows(#[trigger] self@[k], requested@),
            decreases self.layers@.len() - i,
        {
            proof {
                assert(self@[i as int] == self.layers@[i as int]@);
            }
            if !self.layers[i].allows(requested) {
                proof {
                    assert(!set_allows(self@[i as int], requested@));
                }
                return false;
            }
            i += 1;
        }
        true
    }
}

/// Another layer never allows more.
pub proof fn layers_only_narrow(
    layers: Seq<Seq<CapabilityView>>,
    layer: Seq<CapabilityView>,
    requested: CapabilityView,
)
    requires
        layers.len() > 0,
        layers_allow(layers.push(layer), requested),
    ensures
        layers_allow(layers, requested),
{
    let all = layers.push(layer);
    assert forall|i: int| 0 <= i < layers.len() implies set_allows(
        #[trigger] layers[i],
        requested,
    ) by {
        assert(set_allows(all[i], requested));
    }
}

proof fn capability_names_differ(a: CapabilityName, b: CapabilityName)
    ensures
        a.name() == b.name() ==> a == b,
{
    reveal_strlit("fs.read");
    reveal_strlit("fs.write");
    reveal_strlit("fs.delete");
    reveal_strlit("process.spawn");
    reveal_strlit("net.connect");
    reveal_strlit("secret.use");
    reveal_strlit("message.send");
    reveal_strlit("schedule.create");
    reveal_strlit("schedule.modify");
    reveal_strlit("plugin.install");
    reveal_strlit("plugin.update");
    reveal_strlit("plugin.enable");
    reveal_strlit("policy.modify");
    let (s, t) = (a.name(), b.name());
    assert(s == t ==> s.len() == t.len() && s[7] == t[7] && s[9] == t[9]);
}

/// The JSON value of a capability holds its name and its whole scope.
pub proof fn capabilities_are_told_apart(a: CapabilityView, b: CapabilityView)
    requires
        a.json() == b.json(),
    ensures
        a == b,
{
    reveal_strlit("workspace");
    reveal_strlit("path");
    reveal_strlit("exact");
    let x = a.json()->Object_0;
    let y = b.json()->Object_0;
    assert(x[0].1 == y[0].1);
    assert(x[1].1 == y[1].1);
    assert(x[1].1 == scope_json(a.scope) && y[1].1 == scope_json(b.scope));
    capability_names_differ(a.name, b.name);
    let p = scope_json(a.scope)->Object_0;
    let q = scope_json(b.scope)->Object_0;
    assert(p == q);
    assert(p[0].1 == q[0].1);
    let s = p[0].1->Str_0;
    let t = q[0].1->Str_0;
    assert(s.len() == t.len());
    assert(p[1].1 == q[1].1);
    assert(p[2].1 == q[2].1);
    match a.scope {
        ResourceView::Workspace(w) => {
            assert(s == "workspace"@);
            uuid_text_is_injective(w.value, b.scope->Workspace_0.value);
        },
        ResourceView::Path(w, _) => {
            assert(s == "path"@);
            uuid_text_is_injective(w.value, b.scope->Path_0.value);
        },
        ResourceView::Exact(_, _) => {
            assert(s == "exact"@);
        },
    }
}

/// A workspace path holds no backslash and no empty segment, no segment that
/// stands for this directory or the one above, and no control character.
pub proof fn workspace_paths_stay_where_they_are(s: Seq<char>)
    ensures
        workspace_path(s) <==> {
            &&& forall|i: int| 0 <= i < s.len() ==> #[trigger] s[i] != '\\'
            &&& forall|i: int|
                0 <= i < split(s, '/').len() ==> {
                    let part = #[trigger] split(s, '/')[i];
                    &&& part.len() > 0
                    &&& !(part.len() == 1 && part[0] == '.')
                    &&& !(part.len() == 2 && part[0] == '.' && part[1] == '.')
                    &&& forall|k: int| 0 <= k < part.len() ==> !is_control(#[trigger] part[k])
                }
        },
{
    reveal_strlit(".");
    reveal_strlit("..");
    assert forall|part: Seq<char>| #[trigger]
        segment_ok(part) <==> part.len() > 0 && !(part.len() == 1 && part[0] == '.') && !(part.len()
            == 2 && part[0] == '.' && part[1] == '.') && no_control(part) by {
        if part.len() == 1 && part[0] == '.' {
            assert(part =~= "."@);
        }
        if part.len() == 2 && part[0] == '.' && part[1] == '.' {
            assert(part =~= ".."@);
        }
    }
}

} // verus!
