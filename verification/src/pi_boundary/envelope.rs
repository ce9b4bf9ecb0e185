//! The action envelope: what an agent asks the kernel to allow.

use crate::lists::views;
use super::{
    canonical_digest, digest_of, text_result, unit_result, BoundaryError, BoundaryErrorView,
    ACTION_ENVELOPE_VERSION,
};
use crate::ids::{random_uuid, uuid_text, uuid_text_is_injective, uuid_to_text};
use crate::json::{
    array, integral, item_models, member_models, no_fields, no_members, object, put, string, Json, JsonView,
};
use crate::ordered::OrderedTable;
use crate::text::{
    concat, contains_str, join, join_strings, lacks, pieces_decide_prefixes, split, split_chars,
    split_of_join, split_pieces, str_eq, surround, texts, to_chars,
};
use vstd::prelude::*;

verus! {

/// The identity of a lease.
#[derive(Clone, Copy, Debug, PartialEq, Eq, PartialOrd, Ord, Hash, Structural)]
pub struct LeaseId {
    pub value: u128,
}

impl LeaseId {
    /// A fresh random identity.
    pub fn new() -> (r: LeaseId)
        ensures
            r.value & 0xF000_C000_0000_0000_0000 == 0x4000_8000_0000_0000_0000,
    {
        LeaseId { value: random_uuid() }
    }

    /// The identity with the given bits.
    pub fn from_uuid(value: u128) -> (r: LeaseId)
        ensures
            r.value == value,
    {
        LeaseId { value }
    }

    /// The bits of the identity.
    pub fn as_uuid(&self) -> (r: u128)
        ensures
            r == self.value,
    {
        self.value
    }

    /// The hyphenated text.
    pub open spec fn text(self) -> Seq<char> {
        uuid_text(self.value)
    }

    /// The hyphenated text.
    pub fn to_text(&self) -> (r: String)
        ensures
            r@ == self.text(),
    {
        uuid_to_text(self.value)
    }
}

impl Default for LeaseId {
    fn default() -> (r: LeaseId)
        ensures
            r.value & 0xF000_C000_0000_0000_0000 == 0x4000_8000_0000_0000_0000,
    {
        LeaseId::new()
    }
}

/// A tool and its version.
#[derive(Clone, Debug, PartialEq, Eq)]
pub struct ToolRef {
    pub name: String,
    pub version: String,
}

/// An input by its content.
#[derive(Clone, Debug, PartialEq, Eq)]
pub struct InputRef {
    pub content_hash: String,
    pub snapshot_id: Option<String>,
}

/// The rights that an action asks for on a path.
#[derive(Clone, Copy, Debug, PartialEq, Eq, Structural)]
pub enum PathRights {
    Read,
    Write,
}

/// A path that an action touches.
#[derive(Clone, Debug, PartialEq, Eq)]
pub struct PathResource {
    pub path: String,
    pub rights: PathRights,
}

/// A network endpoint that an action reaches.
#[derive(Clone, Debug, PartialEq, Eq)]
pub struct NetworkResource {
    pub scheme: String,
    pub host: String,
    pub port: u16,
}

/// A secret that an action uses, and what for.
#[derive(Clone, Debug, PartialEq, Eq)]
pub struct SecretRef {
    pub id: String,
    pub purpose: String,
}

/// The resources that an action declares.
#[derive(Clone, Debug, PartialEq, Eq)]
pub struct ResourceSet {
    pub paths: Vec<PathResource>,
    pub network: Vec<NetworkResource>,
    pub secrets: Vec<SecretRef>,
}

impl Default for ResourceSet {
    fn default() -> (r: ResourceSet)
        ensures
            r.paths@.len() == 0,
            r.network@.len() == 0,
            r.secrets@.len() == 0,
    {
        ResourceSet { paths: Vec::new(), network: Vec::new(), secrets: Vec::new() }
    }
}

/// The effects that an action declares.
#[derive(Clone, Copy, Debug, PartialEq, Eq, Structural)]
pub struct EffectClasses {
    pub file_read: bool,
    pub file_write: bool,
    pub network_egress: bool,
    pub network_ingress: bool,
    pub process_spawn: bool,
}

/// An action as the agent presents it.
#[derive(Clone, Debug)]
pub struct ActionEnvelope {
    pub version: u32,
    pub action_id: u128,
    pub session_id: String,
    pub tool: ToolRef,
    pub arguments: OrderedTable<Json>,
    pub inputs: Vec<InputRef>,
    pub resources: ResourceSet,
    pub expected_effects: EffectClasses,
    pub lease_chain: Vec<LeaseId>,
    pub nonce: String,
    pub expires_at_ms: i64,
}

/// The model of an `InputRef`.
pub struct InputView {
    pub content_hash: Seq<char>,
    pub snapshot_id: Option<Seq<char>>,
}

/// The model of a `PathResource`.
pub struct PathResourceView {
    pub path: Seq<char>,
    pub rights: PathRights,
}

/// The model of a `NetworkResource`.
pub struct NetworkView {
    pub scheme: Seq<char>,
    pub host: Seq<char>,
    pub port: u16,
}

/// The model of a `SecretRef`.
pub struct SecretView {
    pub id: Seq<char>,
    pub purpose: Seq<char>,
}

/// The model of an `ActionEnvelope`.
pub struct EnvelopeView {
    pub version: u32,
    pub action_id: u128,
    pub session_id: Seq<char>,
    pub tool_name: Seq<char>,
    pub tool_version: Seq<char>,
    pub arguments: Seq<(Seq<char>, JsonView)>,
    pub inputs: Seq<InputView>,
    pub paths: Seq<PathResourceView>,
    pub network: Seq<NetworkView>,
    pub secrets: Seq<SecretView>,
    pub effects: EffectClasses,
    pub lease_chain: Seq<LeaseId>,
    pub nonce: Seq<char>,
    pub expires_at_ms: i64,
}

impl View for InputRef {
    type V = InputView;

    open spec fn view(&self) -> InputView {
        InputView {
            content_hash: self.content_hash@,
            snapshot_id: match self.snapshot_id {
                Some(s) => Some(s@),
                None => None,
            },
        }
    }
}

impl View for PathResource {
    type V = PathResourceView;

    open spec fn view(&self) -> PathResourceView {
        PathResourceView { path: self.path@, rights: self.rights }
    }
}

impl View for NetworkResource {
    type V = NetworkView;

    open spec fn view(&self) -> NetworkView {
        NetworkView { scheme: self.scheme@, host: self.host@, port: self.port }
    }
}

impl View for SecretRef {
    type V = SecretView;

    open spec fn view(&self) -> SecretView {
        SecretView { id: self.id@, purpose: self.purpose@ }
    }
}

impl View for ActionEnvelope {
    type V = EnvelopeView;

    open spec fn view(&self) -> EnvelopeView {
        EnvelopeView {
            version: self.version,
            action_id: self.action_id,
            session_id: self.session_id@,
            tool_name: self.tool.name@,
            tool_version: self.tool.version@,
            arguments: self.arguments@,
            inputs: views(self.inputs@),
            paths: views(self.resources.paths@),
            network: views(self.resources.network@),
            secrets: views(self.resources.secrets@),
            effects: self.expected_effects,
            lease_chain: self.lease_chain@,
            nonce: self.nonce@,
            expires_at_ms: self.expires_at_ms,
        }
    }
}

/// The segments of a path that remain when `.` is dropped and `..` takes back
/// the segment before it. At the root it takes back nothing.
pub open spec fn normalized_parts(pieces: Seq<Seq<char>>) -> Seq<Seq<char>>
    decreases pieces.len(),
{
    if pieces.len() == 0 {
        Seq::empty()
    } else {
        let head = normalized_parts(pieces.drop_last());
        let last = pieces.last();
        if last == "."@ {
            head
        } else if last == ".."@ {
            if head.len() == 0 {
                head
            } else {
                head.drop_last()
            }
        } else {
            head.push(last)
        }
    }
}

/// The segments behind the leading slash of an absolute path.
pub open spec fn segments(path: Seq<char>) -> Seq<Seq<char>> {
    if path == "/"@ {
        Seq::empty()
    } else {
        split(path, '/').drop_first()
    }
}

/// The lexically normalized path. A relative path, or one with an empty
/// segment, has none.
pub open spec fn lexical_path(path: Seq<char>) -> Result<Seq<char>, BoundaryErrorView> {
    if path.len() == 0 || path[0] != '/' {
        Err(BoundaryErrorView::NonCanonicalValue("path must be absolute: "@ + path))
    } else if segments(path).contains(Seq::empty()) {
        Err(BoundaryErrorView::NonCanonicalValue("path has an empty segment: "@ + path))
    } else {
        Ok("/"@ + join(normalized_parts(segments(path)), '/'))
    }
}

/// Normalizes an absolute path without looking at the filesystem.
pub fn canonical_path(path: &str) -> (r: Result<String, BoundaryError>)
    ensures
        text_result(r) == lexical_path(path@),
{
    let c = to_chars(path);
    if c.len() == 0 || c[0] != '/' {
        return Err(BoundaryError::NonCanonicalValue(concat("path must be absolute: ", path)));
    }
    let pieces = if str_eq(path, "/") {
        Vec::new()
    } else {
        split_chars(&c, 1, c.len(), '/')
    };
    let ghost p = segments(path@);
    proof {
        leading_slash(path@);
        assert(c@.subrange(1, c@.len() as int) =~= path@.skip(1));
        assert(texts(pieces@) =~= p);
        reveal_strlit("");
        assert(""@ =~= Seq::<char>::empty());
    }
    if contains_str(&pieces, "") {
        return Err(BoundaryError::NonCanonicalValue(concat("path has an empty segment: ", path)));
    }
    let mut parts: Vec<String> = Vec::new();
    let mut i: usize = 0;
    proof {
        assert(p.take(0) =~= Seq::<Seq<char>>::empty());
        assert(texts(parts@) =~= Seq::<Seq<char>>::empty());
    }
    while i < pieces.len()
        invariant
            i <= pieces@.len(),
            p == texts(pieces@),
            texts(parts@) == normalized_parts(p.take(i as int)),
        decreases pieces@.len() - i,
    {
        proof {
            assert(p.take(i + 1).drop_last() =~= p.take(i as int));
            assert(p.take(i + 1).last() == pieces@[i as int]@);
        }
        let piece = pieces[i].as_str();
        let ghost before = texts(parts@);
        if str_eq(piece, ".") {
        } else if str_eq(piece, "..") {
            if parts.len() > 0 {
                let _ = parts.pop();
                proof {
                    assert(texts(parts@) =~= before.drop_last());
                }
            }
        } else {
            parts.push(pieces[i].clone());
            proof {
                assert(texts(parts@) =~= before.push(pieces@[i as int]@));
            }
        }
        i += 1;
    }
    proof {
        assert(p.take(i as int) =~= p);
    }
    Ok(concat("/", join_strings(&parts, '/').as_str()))
}

/// The pieces of an absolute path are nothing, and those behind the slash.
proof fn leading_slash(path: Seq<char>)
    requires
        path.len() > 0,
        path[0] == '/',
    ensures
        split(path, '/') == seq![Seq::<char>::empty()] + split(path.skip(1), '/'),
        split(path, '/').drop_first() == split(path.skip(1), '/'),
    decreases path.len(),
{
    let e = seq![Seq::<char>::empty()];
    if path.len() == 1 {
        assert(path.drop_last() =~= Seq::<char>::empty());
        assert(path.skip(1) =~= Seq::<char>::empty());
        assert(split(path, '/') =~= e + split(path.skip(1), '/'));
    } else {
        let head = path.drop_last();
        leading_slash(head);
        assert(path.skip(1).drop_last() =~= head.skip(1));
        let rest = split(head.skip(1), '/');
        split_pieces(head.skip(1), '/');
        assert(split(path, '/') =~= e + split(path.skip(1), '/'));
    }
    assert(split(path, '/').drop_first() =~= split(path.skip(1), '/'));
}

/// A segment of a normalized path.
pub open spec fn plain_segment(s: Seq<char>) -> bool {
    s.len() > 0 && s != "."@ && s != ".."@ && lacks(s, '/')
}

/// Every segment is plain.
pub open spec fn plain_segments(p: Seq<Seq<char>>) -> bool {
    forall|i: int| 0 <= i < p.len() ==> plain_segment(#[trigger] p[i])
}

proof fn normalizing_leaves_plain_segments(p: Seq<Seq<char>>)
    requires
        !p.contains(Seq::empty()),
        forall|i: int| 0 <= i < p.len() ==> lacks(#[trigger] p[i], '/'),
    ensures
        plain_segments(normalized_parts(p)),
    decreases p.len(),
{
    if p.len() > 0 {
        let rest = p.drop_last();
        assert forall|i: int| 0 <= i < rest.len() implies lacks(#[trigger] rest[i], '/') by {
            assert(rest[i] == p[i]);
        }
        if rest.contains(Seq::empty()) {
            let i = choose|i: int| 0 <= i < rest.len() && rest[i] == Seq::<char>::empty();
            assert(p[i] == Seq::<char>::empty());
        }
        normalizing_leaves_plain_segments(rest);
        assert(p[p.len() - 1] == p.last());
        if p.last().len() == 0 {
            assert(p.last() =~= Seq::<char>::empty());
        }
    }
}

proof fn plain_segments_are_normal(p: Seq<Seq<char>>)
    requires
        plain_segments(p),
    ensures
        normalized_parts(p) == p,
    decreases p.len(),
{
    if p.len() > 0 {
        let rest = p.drop_last();
        assert forall|i: int| 0 <= i < rest.len() implies plain_segment(#[trigger] rest[i]) by {
            assert(rest[i] == p[i]);
        }
        plain_segments_are_normal(rest);
        assert(plain_segment(p[p.len() - 1]));
        assert(rest.push(p.last()) =~= p);
    } else {
        assert(normalized_parts(p) =~= p);
    }
}

/// The segments of a path that is made of plain ones.
proof fn segments_of_plain(p: Seq<Seq<char>>)
    requires
        plain_segments(p),
    ensures
        segments("/"@ + join(p, '/')) == p,
{
    let path = "/"@ + join(p, '/');
    reveal_strlit("/");
    assert(path.skip(1) =~= join(p, '/'));
    if p.len() == 0 {
        assert(path =~= "/"@);
        assert(p =~= Seq::<Seq<char>>::empty());
    } else {
        split_of_join(p, '/');
        leading_slash(path);
        if path == "/"@ {
            assert(join(p, '/') =~= Seq::<char>::empty());
            assert(split(Seq::<char>::empty(), '/')[0] == Seq::<char>::empty());
            assert(plain_segment(p[0]));
        }
    }
}

/// A normalized path is absolute, and its segments are plain: none is empty, `.`
/// or `..`, so no two slashes stand together and none at the end but in `/`
/// itself. Normalizing it again changes nothing. A path that does not begin
/// with a slash, or that has an empty segment, is refused.
pub proof fn normalized_paths_are_normal(path: Seq<char>)
    ensures
        match lexical_path(path) {
            Ok(c) => {
                &&& path.len() > 0 && path[0] == '/'
                &&& c.len() > 0 && c[0] == '/'
                &&& plain_segments(segments(c))
                &&& c == "/"@ + join(segments(c), '/')
                &&& lexical_path(c) == Ok::<Seq<char>, BoundaryErrorView>(c)
            },
            Err(e) => e is NonCanonicalValue && (path.len() == 0 || path[0] != '/' || segments(
                path,
            ).contains(Seq::empty())),
        },
{
    if let Ok(c) = lexical_path(path) {
        let p = segments(path);
        leading_slash(path);
        split_pieces(path, '/');
        assert forall|i: int| 0 <= i < p.len() implies lacks(#[trigger] p[i], '/') by {
            assert(p[i] == split(path, '/')[i + 1]);
        }
        normalizing_leaves_plain_segments(p);
        let n = normalized_parts(p);
        segments_of_plain(n);
        plain_segments_are_normal(n);
        reveal_strlit("/");
        if n.contains(Seq::empty()) {
            let i = choose|i: int| 0 <= i < n.len() && n[i] == Seq::<char>::empty();
            assert(plain_segment(n[i]));
        }
    }
}

/// On normalized paths a prefix covers exactly the paths whose segments begin
/// with its own. So each covers itself, covering is transitive, paths that
/// cover each other are the same, and the root covers every path.
pub proof fn covering_is_by_segments(p: Seq<char>, q: Seq<char>, r: Seq<char>)
    requires
        lexical_path(p) == Ok::<Seq<char>, BoundaryErrorView>(p),
        lexical_path(q) == Ok::<Seq<char>, BoundaryErrorView>(q),
        lexical_path(r) == Ok::<Seq<char>, BoundaryErrorView>(r),
    ensures
        prefix_covers(p, q) <==> segments(p).is_prefix_of(segments(q)),
        prefix_covers(p, p),
        prefix_covers(p, q) && prefix_covers(q, r) ==> prefix_covers(p, r),
        prefix_covers(p, q) && prefix_covers(q, p) ==> p == q,
        prefix_covers("/"@, q),
{
    covers_by_segments(p, q);
    covers_by_segments(q, r);
    covers_by_segments(p, r);
    covers_by_segments(q, p);
    covers_by_segments(p, p);
    normalized_paths_are_normal(p);
    normalized_paths_are_normal(q);
    let a = segments(p);
    let b = segments(q);
    let c = segments(r);
    assert(a.subrange(0, a.len() as int) =~= a);
    if a.is_prefix_of(b) && b.is_prefix_of(c) {
        assert(c.subrange(0, a.len() as int) =~= b.subrange(0, a.len() as int)) by {
            assert forall|i: int| 0 <= i < a.len() implies c[i] == b[i] by {
                assert(c.subrange(0, b.len() as int)[i] == c[i]);
            }
        }
    }
}

proof fn covers_by_segments(p: Seq<char>, q: Seq<char>)
    requires
        lexical_path(p) == Ok::<Seq<char>, BoundaryErrorView>(p),
        lexical_path(q) == Ok::<Seq<char>, BoundaryErrorView>(q),
    ensures
        prefix_covers(p, q) <==> segments(p).is_prefix_of(segments(q)),
{
    reveal_strlit("/");
    let a = segments(p);
    let b = segments(q);
    if p == "/"@ {
        assert(b.subrange(0, 0) =~= a);
    } else {
        pieces_decide_prefixes(p, q, '/');
        leading_slash(p);
        leading_slash(q);
        split_pieces(p.skip(1), '/');
        let e = seq![Seq::<char>::empty()];
        let x = split(p, '/');
        let y = split(q, '/');
        if q == "/"@ {
            // Only the root is above itself.
            assert(p.len() > 1) by {
                if p.len() == 1 {
                    assert(p =~= "/"@);
                }
            }
            assert(!prefix_covers(p, q));
            assert(a.len() >= 1);
        } else {
            assert(x == e + a && y == e + b);
            if a.is_prefix_of(b) {
                assert(y.subrange(0, x.len() as int) =~= x) by {
                    assert forall|i: int| 0 <= i < x.len() implies y[i] == x[i] by {
                        if i > 0 {
                            assert(y[i] == b[i - 1]);
                            assert(b.subrange(0, a.len() as int)[i - 1] == b[i - 1]);
                        }
                    }
                }
            }
            if x.is_prefix_of(y) {
                assert(b.subrange(0, a.len() as int) =~= a) by {
                    assert forall|i: int| 0 <= i < a.len() implies b[i] == a[i] by {
                        assert(y.subrange(0, x.len() as int)[i + 1] == y[i + 1]);
                        assert(y[i + 1] == b[i]);
                        assert(x[i + 1] == a[i]);
                    }
                }
            }
        }
    }
}

/// `prefix` is `path` or a directory above it.
pub open spec fn prefix_covers(prefix: Seq<char>, path: Seq<char>) -> bool {
    if prefix == "/"@ {
        path.len() > 0 && path[0] == '/'
    } else {
        path == prefix || prefix.push('/').is_prefix_of(path)
    }
}

/// Whether `prefix` is `path` or a directory above it.
pub fn path_prefix_covers(prefix: &str, path: &str) -> (r: bool)
    ensures
        r == prefix_covers(prefix@, path@),
{
    let p = to_chars(path);
    if str_eq(prefix, "/") {
        return p.len() > 0 && p[0] == '/';
    }
    if str_eq(path, prefix) {
        return true;
    }
    let x = to_chars(prefix);
    if x.len() >= p.len() {
        return false;
    }
    let mut i: usize = 0;
    while i < x.len()
        invariant
            i <= x@.len() < p@.len(),
            prefix@ != "/"@,
            path@ != prefix@,
            x@ == prefix@,
            p@ == path@,
            forall|k: int| 0 <= k < i ==> x@[k] == p@[k],
        decreases x@.len() - i,
    {
        if x[i] != p[i] {
            proof {
                assert(prefix@.push('/')[i as int] != path@[i as int]);
                assert(prefix@.push('/').is_prefix_of(path@) ==> path@.subrange(
                    0,
                    prefix@.len() as int + 1,
                )[i as int] == prefix@.push('/')[i as int]);
            }
            return false;
        }
        i += 1;
    }
    if p[i] == '/' {
        proof {
            assert(path@.subrange(0, prefix@.len() as int + 1) =~= prefix@.push('/'));
        }
        true
    } else {
        proof {
            assert(prefix@.push('/')[i as int] == '/');
            assert(prefix@.push('/').is_prefix_of(path@) ==> path@.subrange(
                0,
                prefix@.len() as int + 1,
            )[i as int] == prefix@.push('/')[i as int]);
        }
        false
    }
}

/// The first argument from position `i` on that holds a number which is not
/// an integer.
pub open spec fn bad_argument(args: Seq<(Seq<char>, JsonView)>, i: int) -> Option<Seq<char>>
    decreases args.len() - i,
{
    if i < 0 || i >= args.len() {
        None
    } else if !integral(args[i].1) {
        Some("argument '"@ + args[i].0 + "' contains a non-integer number"@)
    } else {
        bad_argument(args, i + 1)
    }
}

/// The first path from position `i` on that is not absolute.
pub open spec fn bad_path(paths: Seq<PathResourceView>, i: int) -> Option<Seq<char>>
    decreases paths.len() - i,
{
    if i < 0 || i >= paths.len() {
        None
    } else {
        match lexical_path(paths[i].path) {
            Err(e) => Some(
                "resource path '"@ + paths[i].path + "' is not canonical: "@ + e.message(),
            ),
            Ok(_) => bad_path(paths, i + 1),
        }
    }
}

/// The name of a right.
pub open spec fn rights_name(r: PathRights) -> Seq<char> {
    match r {
        PathRights::Read => "read"@,
        PathRights::Write => "write"@,
    }
}

impl InputView {
    /// The JSON value.
    pub open spec fn json(self) -> JsonView {
        let hash = no_fields().push(("content_hash"@, JsonView::Str(self.content_hash)));
        JsonView::Object(
            match self.snapshot_id {
                None => hash,
                Some(s) => hash.push(("snapshot_id"@, JsonView::Str(s))),
            },
        )
    }
}

impl PathResourceView {
    /// The JSON value.
    pub open spec fn json(self) -> JsonView {
        JsonView::Object(
            no_fields().push(("path"@, JsonView::Str(self.path)))
                .push(("rights"@, JsonView::Str(rights_name(self.rights)))),
        )
    }
}

impl NetworkView {
    /// The JSON value.
    pub open spec fn json(self) -> JsonView {
        JsonView::Object(
            no_fields().push(("scheme"@, JsonView::Str(self.scheme)))
                .push(("host"@, JsonView::Str(self.host)))
                .push(("port"@, JsonView::Int(self.port as int))),
        )
    }
}

impl SecretView {
    /// The JSON value.
    pub open spec fn json(self) -> JsonView {
        JsonView::Object(
            no_fields().push(("id"@, JsonView::Str(self.id))).push(("purpose"@, JsonView::Str(self.purpose))),
        )
    }
}

/// The JSON value of declared effects.
pub open spec fn effects_json(e: EffectClasses) -> JsonView {
    JsonView::Object(
        no_fields().push(("file_read"@, JsonView::Bool(e.file_read)))
            .push(("file_write"@, JsonView::Bool(e.file_write)))
            .push(("network_egress"@, JsonView::Bool(e.network_egress)))
            .push(("network_ingress"@, JsonView::Bool(e.network_ingress)))
            .push(("process_spawn"@, JsonView::Bool(e.process_spawn))),
    )
}

impl EnvelopeView {
    /// What the envelope is refused for: the version, an empty session, tool
    /// or nonce, an argument with a fraction, or a path that is not absolute.
    pub open spec fn check(self) -> Result<(), BoundaryErrorView> {
        if self.version != ACTION_ENVELOPE_VERSION {
            Err(
                BoundaryErrorView::UnsupportedVersion {
                    expected: ACTION_ENVELOPE_VERSION,
                    got: self.version,
                },
            )
        } else if self.session_id.len() == 0 {
            Err(BoundaryErrorView::InvalidEnvelope("session_id must not be empty"@))
        } else if self.tool_name.len() == 0 {
            Err(BoundaryErrorView::InvalidEnvelope("tool.name must not be empty"@))
        } else if self.nonce.len() == 0 {
            Err(BoundaryErrorView::InvalidEnvelope("nonce must not be empty"@))
        } else if let Some(t) = bad_argument(self.arguments, 0) {
            Err(BoundaryErrorView::InvalidEnvelope(t))
        } else if let Some(t) = bad_path(self.paths, 0) {
            Err(BoundaryErrorView::InvalidEnvelope(t))
        } else {
            Ok(())
        }
    }

    /// The envelope with the given lease chain in place of its own.
    pub open spec fn with_chain(self, chain: Seq<LeaseId>) -> EnvelopeView {
        EnvelopeView { lease_chain: chain, ..self }
    }

    /// The JSON value of the declared resources.
    pub open spec fn resources_json(self) -> JsonView {
        JsonView::Object(
            no_fields().push((
                "paths"@,
                JsonView::Array(self.paths.map_values(|x: PathResourceView| x.json())),
            )).push((
                "network"@,
                JsonView::Array(self.network.map_values(|x: NetworkView| x.json())),
            )).push((
                "secrets"@,
                JsonView::Array(self.secrets.map_values(|x: SecretView| x.json())),
            )),
        )
    }

    /// The JSON value of the whole envelope.
    pub open spec fn json(self) -> JsonView {
        JsonView::Object(
            no_fields().push(("version"@, JsonView::Int(self.version as int)))
                .push(("action_id"@, JsonView::Str(uuid_text(self.action_id))))
                .push(("session_id"@, JsonView::Str(self.session_id))).push((
                    "tool"@,
                    JsonView::Object(
                        no_fields().push(("name"@, JsonView::Str(self.tool_name)))
                            .push(("version"@, JsonView::Str(self.tool_version))),
                    ),
                )).push(("arguments"@, JsonView::Object(self.arguments))).push((
                    "inputs"@,
                    JsonView::Array(self.inputs.map_values(|x: InputView| x.json())),
                )).push(("resources"@, self.resources_json()))
                .push(("expected_effects"@, effects_json(self.effects))).push((
                    "lease_chain"@,
                    JsonView::Array(
                        self.lease_chain.map_values(|x: LeaseId| JsonView::Str(x.text())),
                    ),
                )).push(("nonce"@, JsonView::Str(self.nonce)))
                    .push(("expires_at_ms"@, JsonView::Int(self.expires_at_ms as int))),
        )
    }

    /// The digest of the envelope.
    pub open spec fn digest(self) -> Result<Seq<char>, BoundaryErrorView> {
        digest_of(self.json())
    }
}

fn rights_str(r: PathRights) -> (s: &'static str)
    ensures
        s@ == rights_name(r),
{
    match r {
        PathRights::Read => "read",
        PathRights::Write => "write",
    }
}

fn input_json(x: &InputRef) -> (r: Json)
    ensures
        r@ == x@.json(),
{
    let mut m = no_members();
    put(&mut m, "content_hash", string(x.content_hash.as_str()));
    if let Some(s) = &x.snapshot_id {
        put(&mut m, "snapshot_id", string(s.as_str()));
    }
    object(m)
}

fn inputs_json(v: &Vec<InputRef>) -> (r: Json)
    ensures
        r@ == JsonView::Array(views(v@).map_values(|x: InputView| x.json())),
{
    let mut out: Vec<Json> = Vec::new();
    let mut i: usize = 0;
    while i < v.len()
        invariant
            i <= v@.len(),
            out@.len() == i,
            forall|k: int| 0 <= k < i ==> (#[trigger] out@[k])@ == v@[k]@.json(),
        decreases v@.len() - i,
    {
        out.push(input_json(&v[i]));
        i += 1;
    }
    proof {
        assert(item_models(out@) =~= views(v@).map_values(|x: InputView| x.json()));
    }
    array(out)
}

fn path_json(x: &PathResource) -> (r: Json)
    ensures
        r@ == x@.json(),
{
    let mut m = no_members();
    put(&mut m, "path", string(x.path.as_str()));
    put(&mut m, "rights", string(rights_str(x.rights)));
    object(m)
}

fn paths_json(v: &Vec<PathResource>) -> (r: Json)
    ensures
        r@ == JsonView::Array(views(v@).map_values(|x: PathResourceView| x.json())),
{
    let mut out: Vec<Json> = Vec::new();
    let mut i: usize = 0;
    while i < v.len()
        invariant
            i <= v@.len(),
            out@.len() == i,
            forall|k: int| 0 <= k < i ==> (#[trigger] out@[k])@ == v@[k]@.json(),
        decreases v@.len() - i,
    {
        out.push(path_json(&v[i]));
        i += 1;
    }
    proof {
        assert(item_models(out@) =~= views(v@).map_values(|x: PathResourceView| x.json()));
    }
    array(out)
}

fn network_json(x: &NetworkResource) -> (r: Json)
    ensures
        r@ == x@.json(),
{
    let mut m = no_members();
    put(&mut m, "scheme", string(x.scheme.as_str()));
    put(&mut m, "host", string(x.host.as_str()));
    put(&mut m, "port", Json::UInt(x.port as u64));
    object(m)
}

fn networks_json(v: &Vec<NetworkResource>) -> (r: Json)
    ensures
        r@ == JsonView::Array(views(v@).map_values(|x: NetworkView| x.json())),
{
    let mut out: Vec<Json> = Vec::new();
    let mut i: usize = 0;
    while i < v.len()
        invariant
            i <= v@.len(),
            out@.len() == i,
            forall|k: int| 0 <= k < i ==> (#[trigger] out@[k])@ == v@[k]@.json(),
        decreases v@.len() - i,
    {
        out.push(network_json(&v[i]));
        i += 1;
    }
    proof {
        assert(item_models(out@) =~= views(v@).map_values(|x: NetworkView| x.json()));
    }
    array(out)
}

fn secret_json(x: &SecretRef) -> (r: Json)
    ensures
        r@ == x@.json(),
{
    let mut m = no_members();
    put(&mut m, "id", string(x.id.as_str()));
    put(&mut m, "purpose", string(x.purpose.as_str()));
    object(m)
}

fn secrets_json(v: &Vec<SecretRef>) -> (r: Json)
    ensures
        r@ == JsonView::Array(views(v@).map_values(|x: SecretView| x.json())),
{
    let mut out: Vec<Json> = Vec::new();
    let mut i: usize = 0;
    while i < v.len()
        invariant
            i <= v@.len(),
            out@.len() == i,
            forall|k: int| 0 <= k < i ==> (#[trigger] out@[k])@ == v@[k]@.json(),
        decreases v@.len() - i,
    {
        out.push(secret_json(&v[i]));
        i += 1;
    }
    proof {
        assert(item_models(out@) =~= views(v@).map_values(|x: SecretView| x.json()));
    }
    array(out)
}

fn chain_json(v: &Vec<LeaseId>) -> (r: Json)
    ensures
        r@ == JsonView::Array(v@.map_values(|x: LeaseId| JsonView::Str(x.text()))),
{
    let mut out: Vec<Json> = Vec::new();
    let mut i: usize = 0;
    while i < v.len()
        invariant
            i <= v@.len(),
            out@.len() == i,
            forall|k: int| 0 <= k < i ==> (#[trigger] out@[k])@ == JsonView::Str(v@[k].text()),
        decreases v@.len() - i,
    {
        out.push(Json::Str(v[i].to_text()));
        i += 1;
    }
    proof {
        assert(item_models(out@) =~= v@.map_values(|x: LeaseId| JsonView::Str(x.text())));
    }
    array(out)
}

/// A table of values as a JSON object.
pub fn table_json(t: &OrderedTable<Json>) -> (r: Json)
    ensures
        r@ == JsonView::Object(t@),
{
    let mut m = no_members();
    let mut i: usize = 0;
    while i < t.len()
        invariant
            i <= t@.len(),
            member_models(m@) =~= t@.take(i as int),
        decreases t@.len() - i,
    {
        put(&mut m, t.key_at(i), t.value_at(i).clone());
        proof {
            assert(t@.take(i + 1) =~= t@.take(i as int).push(t@[i as int]));
        }
        i += 1;
    }
    proof {
        assert(t@.take(i as int) =~= t@);
    }
    object(m)
}

impl ActionEnvelope {
    /// Whether the envelope is well formed.
    pub fn validate(&self) -> (r: Result<(), BoundaryError>)
        ensures
            unit_result(r) == self@.check(),
    {
        if self.version != ACTION_ENVELOPE_VERSION {
            return Err(
                BoundaryError::UnsupportedVersion {
                    expected: ACTION_ENVELOPE_VERSION,
                    got: self.version,
                },
            );
        }
        if self.session_id.as_str().is_empty() {
            return Err(BoundaryError::InvalidEnvelope("session_id must not be empty".to_owned()));
        }
        if self.tool.name.as_str().is_empty() {
            return Err(BoundaryError::InvalidEnvelope("tool.name must not be empty".to_owned()));
        }
        if self.nonce.as_str().is_empty() {
            return Err(BoundaryError::InvalidEnvelope("nonce must not be empty".to_owned()));
        }
        let mut i: usize = 0;
        while i < self.arguments.len()
            invariant
                i <= self.arguments@.len(),
                self.version == ACTION_ENVELOPE_VERSION,
                self.session_id@.len() > 0,
                self.tool.name@.len() > 0,
                self.nonce@.len() > 0,
                bad_argument(self.arguments@, 0) == bad_argument(self.arguments@, i as int),
            decreases self.arguments@.len() - i,
        {
            if !self.arguments.value_at(i).all_numbers_integral() {
                return Err(
                    BoundaryError::InvalidEnvelope(
                        surround(
                            "argument '",
                            self.arguments.key_at(i),
                            "' contains a non-integer number",
                        ),
                    ),
                );
            }
            i += 1;
        }
        let ghost paths = views(self.resources.paths@);
        let mut i: usize = 0;
        while i < self.resources.paths.len()
            invariant
                i <= self.resources.paths@.len(),
                self.version == ACTION_ENVELOPE_VERSION,
                self.session_id@.len() > 0,
                self.tool.name@.len() > 0,
                self.nonce@.len() > 0,
                bad_argument(self.arguments@, 0) is None,
                paths == views(self.resources.paths@),
                bad_path(paths, 0) == bad_path(paths, i as int),
            decreases self.resources.paths@.len() - i,
        {
            if let Err(e) = canonical_path(self.resources.paths[i].path.as_str()) {
                let mut t = surround(
                    "resource path '",
                    self.resources.paths[i].path.as_str(),
                    "' is not canonical: ",
                );
                t.append(e.message().as_str());
                return Err(BoundaryError::InvalidEnvelope(t));
            }
            i += 1;
        }
        Ok(())
    }

    fn to_json(&self, chain: &Vec<LeaseId>) -> (r: Json)
        ensures
            r@ == self@.with_chain(chain@).json(),
    {
        let mut tool = no_members();
        put(&mut tool, "name", string(self.tool.name.as_str()));
        put(&mut tool, "version", string(self.tool.version.as_str()));
        let mut resources = no_members();
        put(&mut resources, "paths", paths_json(&self.resources.paths));
        put(&mut resources, "network", networks_json(&self.resources.network));
        put(&mut resources, "secrets", secrets_json(&self.resources.secrets));
        let mut effects = no_members();
        put(&mut effects, "file_read", Json::Bool(self.expected_effects.file_read));
        put(&mut effects, "file_write", Json::Bool(self.expected_effects.file_write));
        put(&mut effects, "network_egress", Json::Bool(self.expected_effects.network_egress));
        put(&mut effects, "network_ingress", Json::Bool(self.expected_effects.network_ingress));
        put(&mut effects, "process_spawn", Json::Bool(self.expected_effects.process_spawn));
        let mut m = no_members();
        put(&mut m, "version", Json::UInt(self.version as u64));
        put(&mut m, "action_id", Json::Str(uuid_to_text(self.action_id)));
        put(&mut m, "session_id", string(self.session_id.as_str()));
        put(&mut m, "tool", object(tool));
        put(&mut m, "arguments", table_json(&self.arguments));
        put(&mut m, "inputs", inputs_json(&self.inputs));
        put(&mut m, "resources", object(resources));
        put(&mut m, "expected_effects", object(effects));
        put(&mut m, "lease_chain", chain_json(chain));
        put(&mut m, "nonce", string(self.nonce.as_str()));
        put(&mut m, "expires_at_ms", Json::Int(self.expires_at_ms));
        object(m)
    }

    /// The digest of the envelope. Any change of any field changes what is
    /// digested.
    pub fn digest(&self) -> (r: Result<String, BoundaryError>)
        ensures
            text_result(r) == self@.digest(),
    {
        let j = self.to_json(&self.lease_chain);
        proof {
            assert(self@.with_chain(self.lease_chain@) == self@);
        }
        canonical_digest(&j)
    }

    /// The digest of the envelope without its lease chain, which is empty when
    /// a human approves the action.
    pub fn unleased_digest(&self) -> (r: Result<String, BoundaryError>)
        ensures
            text_result(r) == self@.with_chain(Seq::empty()).digest(),
    {
        let none: Vec<LeaseId> = Vec::new();
        canonical_digest(&self.to_json(&none))
    }
}

proof fn inputs_are_told_apart(a: InputView, b: InputView)
    requires
        a.json() == b.json(),
    ensures
        a == b,
{
    let x = a.json()->Object_0;
    let y = b.json()->Object_0;
    assert(x.len() == if a.snapshot_id is Some { 2nat } else { 1nat });
    assert(y.len() == if b.snapshot_id is Some { 2nat } else { 1nat });
    assert(x[0].1 == y[0].1);
    if a.snapshot_id is Some {
        assert(x[1].1 == y[1].1);
    }
}

proof fn paths_are_told_apart(a: PathResourceView, b: PathResourceView)
    requires
        a.json() == b.json(),
    ensures
        a == b,
{
    reveal_strlit("read");
    reveal_strlit("write");
    let x = a.json()->Object_0;
    let y = b.json()->Object_0;
    assert(x[0].1 == y[0].1);
    assert(x[1].1 == y[1].1);
    assert("read"@.len() == 4 && "write"@.len() == 5);
}

proof fn networks_are_told_apart(a: NetworkView, b: NetworkView)
    requires
        a.json() == b.json(),
    ensures
        a == b,
{
    let x = a.json()->Object_0;
    let y = b.json()->Object_0;
    assert(x[0].1 == y[0].1);
    assert(x[1].1 == y[1].1);
    assert(x[2].1 == y[2].1);
}

proof fn secrets_are_told_apart(a: SecretView, b: SecretView)
    requires
        a.json() == b.json(),
    ensures
        a == b,
{
    let x = a.json()->Object_0;
    let y = b.json()->Object_0;
    assert(x[0].1 == y[0].1);
    assert(x[1].1 == y[1].1);
}

proof fn effects_are_told_apart(a: EffectClasses, b: EffectClasses)
    requires
        effects_json(a) == effects_json(b),
    ensures
        a == b,
{
    let x = effects_json(a)->Object_0;
    let y = effects_json(b)->Object_0;
    assert(x[0].1 == y[0].1);
    assert(x[1].1 == y[1].1);
    assert(x[2].1 == y[2].1);
    assert(x[3].1 == y[3].1);
    assert(x[4].1 == y[4].1);
}

proof fn resources_are_told_apart(a: EnvelopeView, b: EnvelopeView)
    requires
        a.resources_json() == b.resources_json(),
    ensures
        a.paths == b.paths,
        a.network == b.network,
        a.secrets == b.secrets,
{
    let x = a.resources_json()->Object_0;
    let y = b.resources_json()->Object_0;
    assert(x[0].1 == y[0].1);
    assert(x[1].1 == y[1].1);
    assert(x[2].1 == y[2].1);
    let paths = |v: PathResourceView| v.json();
    let network = |v: NetworkView| v.json();
    let secrets = |v: SecretView| v.json();
    assert(x[0].1->Array_0 =~= a.paths.map_values(paths));
    assert(y[0].1->Array_0 =~= b.paths.map_values(paths));
    assert(x[1].1->Array_0 =~= a.network.map_values(network));
    assert(y[1].1->Array_0 =~= b.network.map_values(network));
    assert(x[2].1->Array_0 =~= a.secrets.map_values(secrets));
    assert(y[2].1->Array_0 =~= b.secrets.map_values(secrets));
    assert(a.paths.map_values(paths).len() == b.paths.map_values(paths).len());
    assert(a.network.map_values(network).len() == b.network.map_values(network).len());
    assert(a.secrets.map_values(secrets).len() == b.secrets.map_values(secrets).len());
    assert forall|i: int| 0 <= i < a.paths.len() implies #[trigger] a.paths[i] == b.paths[i] by {
        assert(a.paths.map_values(paths)[i] == b.paths.map_values(paths)[i]);
        paths_are_told_apart(a.paths[i], b.paths[i]);
    }
    assert forall|i: int| 0 <= i < a.network.len() implies #[trigger] a.network[i]
        == b.network[i] by {
        assert(a.network.map_values(network)[i] == b.network.map_values(network)[i]);
        networks_are_told_apart(a.network[i], b.network[i]);
    }
    assert forall|i: int| 0 <= i < a.secrets.len() implies #[trigger] a.secrets[i]
        == b.secrets[i] by {
        assert(a.secrets.map_values(secrets)[i] == b.secrets.map_values(secrets)[i]);
        secrets_are_told_apart(a.secrets[i], b.secrets[i]);
    }
    assert(a.paths =~= b.paths);
    assert(a.network =~= b.network);
    assert(a.secrets =~= b.secrets);
}

/// The JSON value that is digested fixes the whole envelope: envelopes that
/// differ anywhere have different values.
pub proof fn envelopes_are_told_apart(a: EnvelopeView, b: EnvelopeView)
    requires
        a.json() == b.json(),
    ensures
        a == b,
{
    let x = a.json()->Object_0;
    let y = b.json()->Object_0;
    assert(x[0].1 == y[0].1);
    assert(x[1].1 == y[1].1);
    assert(x[2].1 == y[2].1);
    assert(x[3].1 == y[3].1);
    assert(x[4].1 == y[4].1);
    assert(x[5].1 == y[5].1);
    assert(x[6].1 == y[6].1);
    assert(x[7].1 == y[7].1);
    assert(x[8].1 == y[8].1);
    assert(x[9].1 == y[9].1);
    assert(x[10].1 == y[10].1);
    uuid_text_is_injective(a.action_id, b.action_id);
    let s = x[3].1->Object_0;
    let t = y[3].1->Object_0;
    assert(s[0].1 == t[0].1);
    assert(s[1].1 == t[1].1);
    let inputs = |v: InputView| v.json();
    assert(x[5].1->Array_0 =~= a.inputs.map_values(inputs));
    assert(y[5].1->Array_0 =~= b.inputs.map_values(inputs));
    assert(a.inputs.map_values(inputs).len() == b.inputs.map_values(inputs).len());
    assert forall|i: int| 0 <= i < a.inputs.len() implies #[trigger] a.inputs[i]
        == b.inputs[i] by {
        assert(a.inputs.map_values(inputs)[i] == b.inputs.map_values(inputs)[i]);
        inputs_are_told_apart(a.inputs[i], b.inputs[i]);
    }
    assert(a.inputs =~= b.inputs);
    resources_are_told_apart(a, b);
    effects_are_told_apart(a.effects, b.effects);
    let chain = |v: LeaseId| JsonView::Str(v.text());
    assert(x[8].1->Array_0 =~= a.lease_chain.map_values(chain));
    assert(y[8].1->Array_0 =~= b.lease_chain.map_values(chain));
    assert(a.lease_chain.map_values(chain).len() == b.lease_chain.map_values(chain).len());
    assert forall|i: int| 0 <= i < a.lease_chain.len() implies #[trigger] a.lease_chain[i]
        == b.lease_chain[i] by {
        assert(a.lease_chain.map_values(chain)[i] == b.lease_chain.map_values(chain)[i]);
        uuid_text_is_injective(a.lease_chain[i].value, b.lease_chain[i].value);
    }
    assert(a.lease_chain =~= b.lease_chain);
}

/// An envelope is in order exactly if it is of version 1, names a session, a tool
/// and a nonce, holds no number but integers in its arguments, and declares only
/// paths that can be normalized.
pub proof fn envelopes_in_order_are_complete(env: EnvelopeView)
    ensures
        env.check() is Ok <==> {
            &&& env.version == 1
            &&& env.session_id.len() > 0 && env.tool_name.len() > 0 && env.nonce.len() > 0
            &&& forall|i: int|
                0 <= i < env.arguments.len() ==> integral((#[trigger] env.arguments[i]).1)
            &&& forall|i: int|
                0 <= i < env.paths.len() ==> lexical_path((#[trigger] env.paths[i]).path) is Ok
        },
{
    arguments_or_flaw(env.arguments, 0);
    paths_or_flaw(env.paths, 0);
}

proof fn arguments_or_flaw(args: Seq<(Seq<char>, JsonView)>, from: int)
    requires
        0 <= from <= args.len(),
    ensures
        bad_argument(args, from) is None <==> forall|i: int|
            from <= i < args.len() ==> integral((#[trigger] args[i]).1),
    decreases args.len() - from,
{
    if from < args.len() {
        arguments_or_flaw(args, from + 1);
        if forall|i: int| from <= i < args.len() ==> integral((#[trigger] args[i]).1) {
            assert(integral(args[from].1));
        }
    }
}

proof fn paths_or_flaw(paths: Seq<PathResourceView>, from: int)
    requires
        0 <= from <= paths.len(),
    ensures
        bad_path(paths, from) is None <==> forall|i: int|
            from <= i < paths.len() ==> lexical_path((#[trigger] paths[i]).path) is Ok,
    decreases paths.len() - from,
{
    if from < paths.len() {
        paths_or_flaw(paths, from + 1);
        if forall|i: int|
            from <= i < paths.len() ==> lexical_path((#[trigger] paths[i]).path) is Ok {
            assert(lexical_path(paths[from].path) is Ok);
        }
    }
}

/// How a path is normalized, segment by segment: a dot changes nothing, two dots
/// take the segment before away, if there is one, and any other segment is added.
pub proof fn dots_are_resolved_in_order(p: Seq<Seq<char>>, s: Seq<char>)
    ensures
        s == "."@ ==> normalized_parts(p.push(s)) == normalized_parts(p),
        s == ".."@ ==> normalized_parts(p.push(s)) == (if normalized_parts(p).len() == 0 {
            normalized_parts(p)
        } else {
            normalized_parts(p).take(normalized_parts(p).len() - 1)
        }),
        s != "."@ && s != ".."@ ==> normalized_parts(p.push(s)) == normalized_parts(p).push(s),
        normalized_parts(Seq::<Seq<char>>::empty()).len() == 0,
{
    reveal_strlit(".");
    reveal_strlit("..");
    assert(p.push(s).drop_last() =~= p);
    assert(p.push(s).last() == s);
    let n = normalized_parts(p);
    assert(n.len() > 0 ==> n.drop_last() =~= n.take(n.len() - 1));
    assert("."@.len() == 1 && ".."@.len() == 2);
}

} // verus!
