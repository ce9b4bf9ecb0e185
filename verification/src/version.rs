//! Semantic versions and version requirements, held as their canonical text.

use vstd::prelude::*;

verus! {

/// The canonical text of the version that `s` writes, or why it writes none.
pub uninterp spec fn version_result(s: Seq<char>) -> Result<Seq<char>, Seq<char>>;

/// The canonical text of the version that `s` writes, if it writes one.
pub open spec fn version_of_text(s: Seq<char>) -> Option<Seq<char>> {
    match version_result(s) {
        Ok(t) => Some(t),
        Err(_) => None,
    }
}

/// The canonical text of the requirement that `s` writes, if it writes one.
pub uninterp spec fn requirement_of_text(s: Seq<char>) -> Option<Seq<char>>;

/// Whether the version `v` satisfies the requirement `req`, both as text.
pub uninterp spec fn requirement_matches(req: Seq<char>, v: Seq<char>) -> bool;

/// The model of an optional string.
pub open spec fn option_text(r: Option<String>) -> Option<Seq<char>> {
    match r {
        Some(s) => Some(s@),
        None => None,
    }
}

/// `semver::Version::parse`: the `Display` text of the version that it reads,
/// or that of its error.
#[verifier::external_body]
fn parse_version(s: &str) -> (r: Result<String, String>)
    ensures
        match r {
            Ok(t) => version_result(s@) == Ok::<Seq<char>, Seq<char>>(t@),
            Err(e) => version_result(s@) == Err::<Seq<char>, Seq<char>>(e@),
        },
{
    semver::Version::parse(s).map(|v| v.to_string()).map_err(|e| e.to_string())
}

/// `semver::VersionReq::parse` of `=` and the text of a version, which its
/// grammar always accepts: the `Display` text of that requirement.
#[verifier::external_body]
fn parse_pin(v: &str) -> (r: String)
    requires
        is_version(v@),
    ensures
        requirement_of_text("="@ + v@) == Some(r@),
{
    semver::VersionReq::parse(&format!("={v}")).expect("a version is pinned").to_string()
}

/// `v` is the canonical text of some version.
pub open spec fn is_version(v: Seq<char>) -> bool {
    exists|s: Seq<char>| #[trigger] version_result(s) == Ok::<Seq<char>, Seq<char>>(v)
}

/// The `Display` text of what `semver::VersionReq::parse` reads.
#[verifier::external_body]
fn parse_requirement(s: &str) -> (r: Option<String>)
    ensures
        option_text(r) == requirement_of_text(s@),
{
    semver::VersionReq::parse(s).ok().map(|v| v.to_string())
}

/// `semver::VersionReq::matches`. A text that does not parse matches nothing.
#[verifier::external_body]
fn matches_version(req: &str, v: &str) -> (r: bool)
    ensures
        r == requirement_matches(req@, v@),
{
    match (semver::VersionReq::parse(req), semver::Version::parse(v)) {
        (Ok(req), Ok(v)) => req.matches(&v),
        _ => false,
    }
}

/// A semantic version.
#[derive(Debug, PartialEq, Eq)]
pub struct Version {
    text: String,
}

impl View for Version {
    type V = Seq<char>;

    closed spec fn view(&self) -> Seq<char> {
        self.text@
    }
}

impl Clone for Version {
    fn clone(&self) -> (r: Version)
        ensures
            r@ == self@,
    {
        proof {
            use_type_invariant(self);
        }
        Version { text: self.text.clone() }
    }
}

impl Version {
    #[verifier::type_invariant]
    spec fn valid(self) -> bool {
        is_version(self.text@)
    }

    /// Reads a version.
    pub fn parse(s: &str) -> (r: Option<Version>)
        ensures
            match r {
                Some(v) => version_of_text(s@) == Some(v@),
                None => version_of_text(s@) is None,
            },
    {
        match Version::read(s) {
            Ok(v) => Some(v),
            Err(_) => None,
        }
    }

    /// Reads a version, or says why there is none.
    pub fn read(s: &str) -> (r: Result<Version, String>)
        ensures
            match r {
                Ok(v) => version_result(s@) == Ok::<Seq<char>, Seq<char>>(v@),
                Err(e) => version_result(s@) == Err::<Seq<char>, Seq<char>>(e@),
            },
    {
        match parse_version(s) {
            Ok(text) => Ok(Version { text }),
            Err(e) => Err(e),
        }
    }

    /// The requirement that only this version meets.
    pub fn pin(&self) -> (r: VersionReq)
        ensures
            requirement_of_text("="@ + self@) == Some(r@),
    {
        proof {
            use_type_invariant(self);
        }
        VersionReq { text: parse_pin(self.text.as_str()) }
    }

    /// The canonical text.
    pub fn as_str(&self) -> (r: &str)
        ensures
            r@ == self@,
    {
        self.text.as_str()
    }
}

/// A version requirement.
#[derive(Debug, PartialEq, Eq)]
pub struct VersionReq {
    text: String,
}

impl View for VersionReq {
    type V = Seq<char>;

    closed spec fn view(&self) -> Seq<char> {
        self.text@
    }
}

impl Clone for VersionReq {
    fn clone(&self) -> (r: VersionReq)
        ensures
            r@ == self@,
    {
        VersionReq { text: self.text.clone() }
    }
}

impl VersionReq {
    /// Reads a requirement.
    pub fn parse(s: &str) -> (r: Option<VersionReq>)
        ensures
            match r {
                Some(v) => requirement_of_text(s@) == Some(v@),
                None => requirement_of_text(s@) is None,
            },
    {
        match parse_requirement(s) {
            Some(text) => Some(VersionReq { text }),
            None => None,
        }
    }

    /// The canonical text.
    pub fn as_str(&self) -> (r: &str)
        ensures
            r@ == self@,
    {
        self.text.as_str()
    }

    /// Whether `version` satisfies the requirement.
    pub fn matches(&self, version: &Version) -> (r: bool)
        ensures
            r == requirement_matches(self@, version@),
    {
        matches_version(self.text.as_str(), version.as_str())
    }
}

} // verus!
