//! Filesystem paths: absolute, resolved, compared component by component.

use super::{outcome, CanonicalError, CanonicalErrorView};
use crate::text::{
    byte_len, chars_lack, concat, join, join_strings, lacks, lacks_control, lowercase, no_control,
    split, split_chars, split_of_join, str_byte_len, str_eq, texts, to_chars,
};
use vstd::prelude::*;

verus! {

/// How symlinks and dot segments are resolved before comparison.
///
/// `resolve` gives the fully canonical absolute path with all symlinks, `.`
/// and `..` resolved component by component, as the operating system does, or
/// the reason why it cannot.
pub trait PathResolver {
    fn resolve(&self, path: &str) -> Result<String, String>;
}

/// A canonical filesystem path: absolute, resolved, free of dot segments.
#[derive(Debug, PartialEq, Eq, PartialOrd, Ord, Hash)]
pub struct CanonicalPath {
    components: Vec<String>,
    case_folded: bool,
}

/// The model of a `CanonicalPath`.
pub struct PathView {
    /// Resolved components below the root.
    pub components: Seq<Seq<char>>,
    /// Whether comparison folds case.
    pub case_folded: bool,
}

impl View for CanonicalPath {
    type V = PathView;

    closed spec fn view(&self) -> PathView {
        PathView { components: texts(self.components@), case_folded: self.case_folded }
    }
}

impl Clone for CanonicalPath {
    fn clone(&self) -> (r: CanonicalPath)
        ensures
            r@ == self@,
    {
        CanonicalPath {
            components: crate::text::clone_strings(&self.components),
            case_folded: self.case_folded,
        }
    }
}

/// Whether the text holds a control byte that a path may not hold.
pub open spec fn has_control(s: Seq<char>) -> bool {
    exists|i: int| 0 <= i < s.len() && (#[trigger] s[i] as int) < 0x20 && s[i] != '\t'
}

/// The components that a resolved path names: the pieces between slashes that
/// are not empty.
pub open spec fn named(pieces: Seq<Seq<char>>) -> Seq<Seq<char>>
    decreases pieces.len(),
{
    if pieces.len() == 0 {
        Seq::empty()
    } else {
        let head = named(pieces.drop_last());
        let last = pieces.last();
        if last.len() == 0 {
            head
        } else {
            head.push(last)
        }
    }
}

/// Each component in lower case, where the view folds case.
pub open spec fn folded(components: Seq<Seq<char>>, fold: bool) -> Seq<Seq<char>> {
    if fold {
        components.map_values(|c: Seq<char>| lowercase(c))
    } else {
        components
    }
}

/// What a path is refused for before it is resolved.
pub open spec fn refused(input: Seq<char>) -> Option<CanonicalErrorView> {
    if input.len() == 0 {
        Some(CanonicalErrorView::Empty)
    } else if byte_len(input) > 4096 {
        Some(CanonicalErrorView::TooLong)
    } else if has_control(input) {
        Some(CanonicalErrorView::BadChars(input))
    } else if input[0] != '/' {
        Some(CanonicalErrorView::NotAbsolute(input))
    } else {
        None
    }
}

/// The canonical path of an input that resolved to `resolved`. A resolver that
/// gives a relative path, or one with `.` or `..`, is broken: the path is
/// refused.
pub open spec fn canonicalize(
    input: Seq<char>,
    resolved: Result<Seq<char>, Seq<char>>,
    fold: bool,
) -> Result<PathView, CanonicalErrorView> {
    match resolved {
        Err(e) => Err(CanonicalErrorView::Unresolvable(input + ": "@ + e)),
        Ok(path) => {
            if path.len() == 0 || path[0] != '/' {
                Err(CanonicalErrorView::NotAbsolute(path))
            } else if split(path, '/').contains("."@) || split(path, '/').contains(".."@) {
                Err(CanonicalErrorView::Traversal(path))
            } else {
                Ok(
                    PathView {
                        components: folded(named(split(path, '/')), fold),
                        case_folded: fold,
                    },
                )
            }
        },
    }
}

/// The model of what a resolver gave.
pub open spec fn resolved_view(r: Result<String, String>) -> Result<Seq<char>, Seq<char>> {
    match r {
        Ok(p) => Ok(p@),
        Err(e) => Err(e@),
    }
}

impl PathView {
    /// At or below `root`, on a component boundary and in the same view.
    pub open spec fn within(self, root: PathView) -> bool {
        self.case_folded == root.case_folded && root.components.is_prefix_of(self.components)
    }

    /// The components joined by slashes, with a leading slash and a mark where
    /// case was folded.
    pub open spec fn form(self) -> Seq<char> {
        let base = seq!['/'] + join(self.components, '/');
        if self.case_folded {
            base + "~fold"@
        } else {
            base
        }
    }
}

impl CanonicalPath {
    /// Canonicalizes `input` through `resolver`. Where `case_insensitive`, the
    /// filesystem view folds case: components are lower-cased.
    pub fn parse<R: PathResolver>(input: &str, resolver: &R, case_insensitive: bool) -> (r: Result<
        CanonicalPath,
        CanonicalError,
    >)
        ensures
            match refused(input@) {
                Some(e) => outcome(r) == Err::<PathView, CanonicalErrorView>(e),
                None => exists|resolved: Result<String, String>| #[trigger]
                    call_ensures(R::resolve, (resolver, input), resolved) && outcome(r)
                        == canonicalize(input@, resolved_view(resolved), case_insensitive),
            },
    {
        if let Some(e) = refuse(input) {
            return Err(e);
        }
        let resolved = resolver.resolve(input);
        CanonicalPath::from_resolved(input, resolved, case_insensitive)
    }

    /// What `input` is refused for before it is resolved.
    pub fn refusal(input: &str) -> (r: Option<CanonicalError>)
        ensures
            match r {
                Some(e) => refused(input@) == Some(e@),
                None => refused(input@) is None,
            },
    {
        refuse(input)
    }

    /// The canonical path of `input`, given what the resolver made of it.
    pub fn from_resolved(
        input: &str,
        resolved: Result<String, String>,
        case_insensitive: bool,
    ) -> (r: Result<CanonicalPath, CanonicalError>)
        ensures
            outcome(r) == canonicalize(input@, resolved_view(resolved), case_insensitive),
    {
        let path = match resolved {
            Ok(p) => p,
            Err(e) => {
                return Err(
                    CanonicalError::Unresolvable(crate::text::surround(input, ": ", e.as_str())),
                );
            },
        };
        let chars = to_chars(path.as_str());
        if chars.len() == 0 || chars[0] != '/' {
            return Err(CanonicalError::NotAbsolute(path));
        }
        let pieces = split_chars(&chars, 0, chars.len(), '/');
        proof {
            assert(chars@.subrange(0, chars@.len() as int) =~= chars@);
        }
        if crate::text::contains_str(&pieces, ".") || crate::text::contains_str(&pieces, "..") {
            return Err(CanonicalError::Traversal(path));
        }
        let ghost t = texts(pieces@);
        let mut components: Vec<String> = Vec::new();
        let mut i: usize = 0;
        proof {
            assert(t.take(0) =~= Seq::<Seq<char>>::empty());
            assert(texts(components@) =~= folded(named(t.take(0)), case_insensitive));
        }
        while i < pieces.len()
            invariant
                i <= pieces@.len(),
                t == texts(pieces@),
                texts(components@) == folded(named(t.take(i as int)), case_insensitive),
            decreases pieces@.len() - i,
        {
            let ghost before = texts(components@);
            proof {
                assert(t.take(i + 1).drop_last() =~= t.take(i as int));
                assert(t.take(i + 1).last() == pieces@[i as int]@);
            }
            let s = pieces[i].as_str();
            if !s.is_empty() {
                let ghost done = named(t.take(i as int));
                if case_insensitive {
                    components.push(s.to_lowercase());
                } else {
                    components.push(s.to_owned());
                }
                proof {
                    assert(texts(components@) =~= before.push(components@.last()@));
                    assert(folded(done.push(s@), case_insensitive) =~= before.push(
                        components@.last()@,
                    ));
                }
            }
            i += 1;
        }
        proof {
            assert(t.take(t.len() as int) =~= t);
        }
        Ok(CanonicalPath { components, case_folded: case_insensitive })
    }

    /// Whether the path is at or below `root`, compared component-wise:
    /// `/database` is never within `/data`.
    pub fn is_within(&self, root: &CanonicalPath) -> (r: bool)
        ensures
            r == self@.within(root@),
    {
        if self.case_folded != root.case_folded {
            return false;
        }
        if self.components.len() < root.components.len() {
            return false;
        }
        let ghost a = texts(self.components@);
        let ghost b = texts(root.components@);
        let mut i: usize = 0;
        while i < root.components.len()
            invariant
                a == texts(self.components@),
                b == texts(root.components@),
                b.len() <= a.len(),
                i <= b.len(),
                forall|j: int| 0 <= j < i ==> a[j] == b[j],
            decreases b.len() - i,
        {
            if !str_eq(self.components[i].as_str(), root.components[i].as_str()) {
                proof {
                    assert(a[i as int] != b[i as int]);
                    assert(a.subrange(0, b.len() as int)[i as int] == a[i as int]);
                }
                return false;
            }
            proof {
                assert(a[i as int] == b[i as int]);
            }
            i += 1;
        }
        proof {
            assert(a.subrange(0, b.len() as int) =~= b);
        }
        true
    }

    /// The canonical encoding.
    pub fn canonical_form(&self) -> (r: String)
        ensures
            r@ == self@.form(),
    {
        let mut out = String::new();
        out.push('/');
        let joined = join_strings(&self.components, '/');
        out.append(joined.as_str());
        proof {
            assert(out@ =~= seq!['/'] + join(self@.components, '/'));
        }
        if self.case_folded {
            out.append("~fold");
        }
        out
    }

    /// The resolved components below the root.
    pub fn components(&self) -> (r: &Vec<String>)
        ensures
            texts(r@) == self@.components,
    {
        &self.components
    }

    /// Whether comparison folds case.
    pub fn case_folded(&self) -> (r: bool)
        ensures
            r == self@.case_folded,
    {
        self.case_folded
    }
}

fn refuse(input: &str) -> (r: Option<CanonicalError>)
    ensures
        match r {
            Some(e) => refused(input@) == Some(e@),
            None => refused(input@) is None,
        },
{
    if input.is_empty() {
        return Some(CanonicalError::Empty);
    }
    if str_byte_len(input) > 4096 {
        return Some(CanonicalError::TooLong);
    }
    let chars = to_chars(input);
    let mut i: usize = 0;
    while i < chars.len()
        invariant
            chars@ == input@,
            input@.len() > 0,
            byte_len(input@) <= 4096,
            i <= chars@.len(),
            forall|j: int| 0 <= j < i ==> !((#[trigger] chars@[j] as int) < 0x20 && chars@[j] != '\t'),
        decreases chars@.len() - i,
    {
        if chars[i] < ' ' && chars[i] != '\t' {
            proof {
                assert((chars@[i as int] as int) < 0x20);
            }
            return Some(CanonicalError::BadChars(input.to_owned()));
        }
        i += 1;
    }
    if chars[0] != '/' {
        return Some(CanonicalError::NotAbsolute(input.to_owned()));
    }
    None
}

/// Read and write rights on a path grant.
#[derive(Clone, Copy, Debug, PartialEq, Eq, Structural)]
pub struct PathRights {
    pub read: bool,
    pub write: bool,
}

impl PathRights {
    /// Read only.
    pub fn read_only() -> (r: PathRights)
        ensures
            r == (PathRights { read: true, write: false }),
    {
        PathRights { read: true, write: false }
    }

    /// Read and write.
    pub fn read_write() -> (r: PathRights)
        ensures
            r == (PathRights { read: true, write: true }),
    {
        PathRights { read: true, write: true }
    }

    /// Write only.
    pub fn write_only() -> (r: PathRights)
        ensures
            r == (PathRights { read: false, write: true }),
    {
        PathRights { read: false, write: true }
    }

    /// Each right is granted by `parent` too.
    pub open spec fn subset(self, parent: PathRights) -> bool {
        (self.read ==> parent.read) && (self.write ==> parent.write)
    }

    /// Whether each right is granted by `parent` too.
    pub fn is_subset_of(self, parent: PathRights) -> (r: bool)
        ensures
            r == self.subset(parent),
    {
        (!self.read || parent.read) && (!self.write || parent.write)
    }
}

impl Default for PathRights {
    fn default() -> (r: PathRights)
        ensures
            !r.read && !r.write,
    {
        PathRights { read: false, write: false }
    }
}

/// One path grant: a canonical root and rights.
#[derive(Debug, PartialEq, Eq)]
pub struct PathGrant {
    pub root: CanonicalPath,
    pub rights: PathRights,
}

/// The model of a `PathGrant`.
pub struct PathGrantView {
    pub root: PathView,
    pub rights: PathRights,
}

impl View for PathGrant {
    type V = PathGrantView;

    open spec fn view(&self) -> PathGrantView {
        PathGrantView { root: self.root@, rights: self.rights }
    }
}

impl Clone for PathGrant {
    fn clone(&self) -> (r: PathGrant)
        ensures
            r@ == self@,
    {
        PathGrant { root: self.root.clone(), rights: self.rights }
    }
}

impl PathGrantView {
    /// The child narrows the parent: its root is within the parent's root and
    /// its rights are a subset.
    pub open spec fn narrows(self, parent: PathGrantView) -> bool {
        self.root.within(parent.root) && self.rights.subset(parent.rights)
    }
}

/// The views of a list of grants.
pub open spec fn grant_views(v: Seq<PathGrant>) -> Seq<PathGrantView> {
    v.map_values(|g: PathGrant| g@)
}

impl PathGrant {
    /// The first of `parents` that covers `child`.
    pub fn covering<'a>(child: &PathGrant, parents: &'a Vec<PathGrant>) -> (r: Result<
        &'a PathGrant,
        CanonicalError,
    >)
        ensures
            match r {
                Ok(p) => exists|i: int|
                    0 <= i < parents@.len() && p@ == (#[trigger] parents@[i])@ && child@.narrows(p@)
                        && forall|j: int| 0 <= j < i ==> !child@.narrows((#[trigger] parents@[j])@),
                Err(e) => e@ == CanonicalErrorView::Incomparable && forall|i: int|
                    0 <= i < parents@.len() ==> !child@.narrows((#[trigger] parents@[i])@),
            },
    {
        let mut i: usize = 0;
        while i < parents.len()
            invariant
                i <= parents@.len(),
                forall|j: int| 0 <= j < i ==> !child@.narrows((#[trigger] parents@[j])@),
            decreases parents@.len() - i,
        {
            if child.root.is_within(&parents[i].root) && child.rights.is_subset_of(
                parents[i].rights,
            ) {
                proof {
                    assert(child@.narrows(parents@[i as int]@));
                }
                return Ok(&parents[i]);
            }
            i += 1;
        }
        Err(CanonicalError::Incomparable)
    }
}

/// A path is within itself.
pub proof fn within_reflexive(p: PathView)
    ensures
        p.within(p),
{
    assert(p.components.subrange(0, p.components.len() as int) =~= p.components);
}

/// Being within is transitive: narrowing a narrowed path stays below the root.
pub proof fn within_transitive(a: PathView, b: PathView, c: PathView)
    requires
        a.within(b),
        b.within(c),
    ensures
        a.within(c),
{
    let n = c.components.len() as int;
    assert(a.components.subrange(0, b.components.len() as int) == b.components);
    assert(b.components.subrange(0, n) == c.components);
    assert(a.components.subrange(0, n) =~= c.components) by {
        assert forall|i: int| 0 <= i < n implies a.components[i] == c.components[i] by {
            assert(b.components[i] == a.components.subrange(0, b.components.len() as int)[i]);
            assert(c.components[i] == b.components.subrange(0, n)[i]);
        }
    }
}

/// A path whose component at some position differs from the root's is not
/// within the root, however much of that component it shares.
pub proof fn within_needs_whole_components(a: PathView, root: PathView, i: int)
    requires
        0 <= i < root.components.len(),
        i < a.components.len(),
        a.components[i] != root.components[i],
    ensures
        !a.within(root),
{
    if root.components.is_prefix_of(a.components) {
        assert(a.components.subrange(0, root.components.len() as int)[i] == a.components[i]);
    }
}

/// Narrowing a grant is reflexive and transitive.
pub proof fn narrowing_is_transitive(a: PathGrantView, b: PathGrantView, c: PathGrantView)
    ensures
        a.narrows(a),
        a.narrows(b) && b.narrows(c) ==> a.narrows(c),
{
    within_reflexive(a.root);
    if a.narrows(b) && b.narrows(c) {
        within_transitive(a.root, b.root, c.root);
    }
}

/// Two different views of the filesystem are never comparable.
pub proof fn views_are_incomparable(a: PathView, b: PathView)
    requires
        a.case_folded != b.case_folded,
    ensures
        !a.within(b),
        !b.within(a),
{
}

/// A component that stands in a decoded path: a plain name in the spelling of
/// the view.
pub open spec fn component_ok(s: Seq<char>, case_folded: bool) -> bool {
    &&& s.len() > 0
    &&& s != "."@
    &&& s != ".."@
    &&& lacks(s, '/')
    &&& no_control(s)
    &&& case_folded ==> lowercase(s) == s
}

impl PathView {
    /// The path as it stands on disk.
    pub open spec fn absolute(self) -> Seq<char> {
        seq!['/'] + join(self.components, '/')
    }

    /// A path that may be decoded.
    pub open spec fn valid(self) -> bool {
        byte_len(self.absolute()) <= 4096 && forall|i: int|
            0 <= i < self.components.len() ==> component_ok(
                #[trigger] self.components[i],
                self.case_folded,
            )
    }
}

fn component_is_ok(s: &str, case_folded: bool) -> (r: bool)
    ensures
        r == component_ok(s@, case_folded),
{
    if s.is_empty() || str_eq(s, ".") || str_eq(s, "..") {
        return false;
    }
    let c = to_chars(s);
    if !chars_lack(&c, '/') {
        return false;
    }
    if !lacks_control(s) {
        return false;
    }
    !case_folded || str_eq(s.to_lowercase().as_str(), s)
}

impl CanonicalPath {
    /// The path as it stands on disk.
    pub fn absolute_path(&self) -> (r: String)
        ensures
            r@ == self@.absolute(),
    {
        proof {
            reveal_strlit("/");
            assert("/"@ =~= seq!['/']);
        }
        concat("/", join_strings(&self.components, '/').as_str())
    }

    /// A path from decoded parts, which have to be canonical already.
    pub fn decode(components: Vec<String>, case_folded: bool) -> (r: Result<
        CanonicalPath,
        CanonicalError,
    >)
        ensures
            outcome(r) == ({
                let p = PathView { components: texts(components@), case_folded };
                if p.valid() {
                    Ok(p)
                } else {
                    Err(CanonicalErrorView::InvalidEncoding("path components or filesystem view"@))
                }
            }),
    {
        let path = CanonicalPath { components, case_folded };
        if str_byte_len(path.absolute_path().as_str()) > 4096 {
            return Err(CanonicalError::InvalidEncoding("path components or filesystem view"));
        }
        let mut i: usize = 0;
        while i < path.components.len()
            invariant
                i <= path.components@.len(),
                path@.components.len() == path.components@.len(),
                forall|k: int|
                    0 <= k < i ==> component_ok(#[trigger] path@.components[k], path@.case_folded),
                path@ == (PathView { components: texts(components@), case_folded }),
            decreases path.components@.len() - i,
        {
            if !component_is_ok(path.components[i].as_str(), path.case_folded) {
                proof {
                    assert(!component_ok(path@.components[i as int], path@.case_folded));
                }
                return Err(CanonicalError::InvalidEncoding("path components or filesystem view"));
            }
            i += 1;
        }
        Ok(path)
    }
}

/// A path that was resolved is canonical exactly if it is absolute and has no
/// dots for segments, and then its components are its segments, in lower case
/// where the view folds case. So none of them is empty, and distinct paths of
/// segments stay distinct where case is not folded.
pub proof fn canonical_paths_hold_their_segments(
    input: Seq<char>,
    segments: Seq<Seq<char>>,
    fold: bool,
)
    requires
        forall|i: int|
            0 <= i < segments.len() ==> (#[trigger] segments[i]).len() > 0 && lacks(
                segments[i],
                '/',
            ) && segments[i] != "."@ && segments[i] != ".."@,
        segments.len() > 0,
    ensures
        ({
            let path = join(seq![Seq::<char>::empty()] + segments, '/');
            let r = canonicalize(input, Ok(path), fold);
            &&& r is Ok
            &&& r->Ok_0.case_folded == fold
            &&& r->Ok_0.components.len() == segments.len()
            &&& forall|i: int|
                0 <= i < segments.len() ==> #[trigger] r->Ok_0.components[i] == (if fold {
                    lowercase(segments[i])
                } else {
                    segments[i]
                })
        }),
{
    reveal_strlit(".");
    reveal_strlit("..");
    let e = Seq::<char>::empty();
    let parts = seq![e] + segments;
    let path = join(parts, '/');
    assert forall|i: int| 0 <= i < parts.len() implies lacks(#[trigger] parts[i], '/') by {
        if i > 0 {
            assert(parts[i] == segments[i - 1]);
        }
    }
    split_of_join(parts, '/');
    joined_after_nothing(segments);
    assert(!parts.contains("."@)) by {
        if parts.contains("."@) {
            let i = choose|i: int| 0 <= i < parts.len() && parts[i] == "."@;
            assert(parts[i] == segments[i - 1]);
        }
    }
    assert(!parts.contains(".."@)) by {
        if parts.contains(".."@) {
            let i = choose|i: int| 0 <= i < parts.len() && parts[i] == ".."@;
            assert(parts[i] == segments[i - 1]);
        }
    }
    named_after_nothing(segments);
}

proof fn joined_after_nothing(segments: Seq<Seq<char>>)
    requires
        segments.len() > 0,
    ensures
        join(seq![Seq::<char>::empty()] + segments, '/').len() > 0,
        join(seq![Seq::<char>::empty()] + segments, '/')[0] == '/',
    decreases segments.len(),
{
    let e = seq![Seq::<char>::empty()];
    let all = e + segments;
    let head = segments.drop_last();
    assert(all.drop_last() =~= e + head);
    if head.len() > 0 {
        joined_after_nothing(head);
    } else {
        assert(e + head =~= e);
        assert(join(e, '/') == e[0]);
    }
}

proof fn named_after_nothing(segments: Seq<Seq<char>>)
    requires
        forall|i: int| 0 <= i < segments.len() ==> (#[trigger] segments[i]).len() > 0,
    ensures
        named(seq![Seq::<char>::empty()] + segments) == segments,
    decreases segments.len(),
{
    let e = seq![Seq::<char>::empty()];
    let all = e + segments;
    if segments.len() == 0 {
        assert(all =~= e);
        assert(e.drop_last() =~= Seq::<Seq<char>>::empty());
        assert(e.last() == Seq::<char>::empty());
        assert(named(e.drop_last()) == Seq::<Seq<char>>::empty());
        assert(segments =~= Seq::<Seq<char>>::empty());
        assert(named(e) == segments);
    } else {
        let head = segments.drop_last();
        assert(all.drop_last() =~= e + head);
        named_after_nothing(head);
        assert(all.last() == segments.last());
        assert(named(all) =~= segments);
    }
}

/// A path that is relative, or has a dot or two dots for a segment, is refused
/// however it was resolved, and so is one that was not resolved.
pub proof fn broken_resolutions_are_refused(
    input: Seq<char>,
    resolved: Result<Seq<char>, Seq<char>>,
    fold: bool,
)
    ensures
        canonicalize(input, resolved, fold) is Ok ==> {
            &&& resolved is Ok
            &&& resolved->Ok_0.len() > 0 && resolved->Ok_0[0] == '/'
            &&& !split(resolved->Ok_0, '/').contains("."@)
            &&& !split(resolved->Ok_0, '/').contains(".."@)
        },
{
}

} // verus!
