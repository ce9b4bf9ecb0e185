//! Canonical resources: typed, canonicalized identifiers for every resource
//! dimension that a lease can name.
//!
//! Raw strings are never compared across the trust boundary. Every resource is
//! parsed into a typed value and normalized into a canonical form, and only
//! canonical forms are compared. Subset checks are structural: component-wise,
//! range containment, set inclusion. They are never string-prefix tests.
//!
//! * Paths must resolve through a [`path::PathResolver`] to an absolute
//!   physical path. Unresolvable input is rejected.
//! * DNS names and IP ranges are distinct types and never compare equal.
//!   Ambiguous wildcards (`*`, `*.*`, `*.tld`) are rejected.
//! * If two scopes cannot be compared safely, the subset proof fails.

use vstd::prelude::*;

pub mod destination;
pub mod encode;
pub mod host;
pub mod path;
pub mod ports;
pub mod resource;
pub mod scope;

verus! {

/// Why a resource cannot be canonicalized. The resource is then unusable.
#[derive(Clone, Debug, PartialEq, Eq)]
pub enum CanonicalError {
    Empty,
    TooLong,
    BadChars(String),
    NotAbsolute(String),
    Unresolvable(String),
    Traversal(String),
    BadToolName(String),
    BadVersion(String),
    BadDestination(String),
    AmbiguousWildcard(String),
    DnsIpMix,
    BadPort(String),
    BadSecretRef,
    BadAccountRef(String),
    BadModelClass(String),
    Incomparable,
    Io(String),
    /// A decoded resource is not in its canonical form.
    InvalidEncoding(&'static str),
}

/// The model of a `CanonicalError`.
pub enum CanonicalErrorView {
    Empty,
    TooLong,
    BadChars(Seq<char>),
    NotAbsolute(Seq<char>),
    Unresolvable(Seq<char>),
    Traversal(Seq<char>),
    BadToolName(Seq<char>),
    BadVersion(Seq<char>),
    BadDestination(Seq<char>),
    AmbiguousWildcard(Seq<char>),
    DnsIpMix,
    BadPort(Seq<char>),
    BadSecretRef,
    BadAccountRef(Seq<char>),
    BadModelClass(Seq<char>),
    Incomparable,
    Io(Seq<char>),
    InvalidEncoding(Seq<char>),
}

impl View for CanonicalError {
    type V = CanonicalErrorView;

    open spec fn view(&self) -> CanonicalErrorView {
        match *self {
            CanonicalError::Empty => CanonicalErrorView::Empty,
            CanonicalError::TooLong => CanonicalErrorView::TooLong,
            CanonicalError::BadChars(a) => CanonicalErrorView::BadChars(a@),
            CanonicalError::NotAbsolute(a) => CanonicalErrorView::NotAbsolute(a@),
            CanonicalError::Unresolvable(a) => CanonicalErrorView::Unresolvable(a@),
            CanonicalError::Traversal(a) => CanonicalErrorView::Traversal(a@),
            CanonicalError::BadToolName(a) => CanonicalErrorView::BadToolName(a@),
            CanonicalError::BadVersion(a) => CanonicalErrorView::BadVersion(a@),
            CanonicalError::BadDestination(a) => CanonicalErrorView::BadDestination(a@),
            CanonicalError::AmbiguousWildcard(a) => CanonicalErrorView::AmbiguousWildcard(a@),
            CanonicalError::DnsIpMix => CanonicalErrorView::DnsIpMix,
            CanonicalError::BadPort(a) => CanonicalErrorView::BadPort(a@),
            CanonicalError::BadSecretRef => CanonicalErrorView::BadSecretRef,
            CanonicalError::BadAccountRef(a) => CanonicalErrorView::BadAccountRef(a@),
            CanonicalError::BadModelClass(a) => CanonicalErrorView::BadModelClass(a@),
            CanonicalError::Incomparable => CanonicalErrorView::Incomparable,
            CanonicalError::Io(a) => CanonicalErrorView::Io(a@),
            CanonicalError::InvalidEncoding(a) => CanonicalErrorView::InvalidEncoding(a@),
        }
    }
}

impl CanonicalErrorView {
    /// The message of the error.
    pub open spec fn message(self) -> Seq<char> {
        match self {
            CanonicalErrorView::Empty => "empty resource"@,
            CanonicalErrorView::TooLong => "resource too long"@,
            CanonicalErrorView::BadChars(a) => "invalid characters in resource: "@ + a,
            CanonicalErrorView::NotAbsolute(a) => "path is not absolute: "@ + a,
            CanonicalErrorView::Unresolvable(a) => "path could not be resolved: "@ + a,
            CanonicalErrorView::Traversal(a) => "path escapes its root via traversal: "@ + a,
            CanonicalErrorView::BadToolName(a) => "invalid tool name: "@ + a,
            CanonicalErrorView::BadVersion(a) => "invalid version: "@ + a,
            CanonicalErrorView::BadDestination(a) => "invalid network destination: "@ + a,
            CanonicalErrorView::AmbiguousWildcard(a) => "ambiguous wildcard rejected: "@ + a,
            CanonicalErrorView::DnsIpMix => "DNS names and IP ranges are not comparable"@,
            CanonicalErrorView::BadPort(a) => "invalid port: "@ + a,
            CanonicalErrorView::BadSecretRef => "invalid secret reference"@,
            CanonicalErrorView::BadAccountRef(a) => "invalid account reference: "@ + a,
            CanonicalErrorView::BadModelClass(a) => "invalid model class: "@ + a,
            CanonicalErrorView::Incomparable => "resource types are not comparable"@,
            CanonicalErrorView::Io(a) => "io error resolving path: "@ + a,
            CanonicalErrorView::InvalidEncoding(a) => "invalid encoding: "@ + a,
        }
    }
}

impl CanonicalError {
    /// The message of the error.
    pub fn message(&self) -> (r: String)
        ensures
            r@ == self@.message(),
    {
        match self {
            CanonicalError::Empty => "empty resource".to_owned(),
            CanonicalError::TooLong => "resource too long".to_owned(),
            CanonicalError::BadChars(a) => {
                let mut out = "invalid characters in resource: ".to_owned();
                out.append(a.as_str());
                out
            },
            CanonicalError::NotAbsolute(a) => {
                let mut out = "path is not absolute: ".to_owned();
                out.append(a.as_str());
                out
            },
            CanonicalError::Unresolvable(a) => {
                let mut out = "path could not be resolved: ".to_owned();
                out.append(a.as_str());
                out
            },
            CanonicalError::Traversal(a) => {
                let mut out = "path escapes its root via traversal: ".to_owned();
                out.append(a.as_str());
                out
            },
            CanonicalError::BadToolName(a) => {
                let mut out = "invalid tool name: ".to_owned();
                out.append(a.as_str());
                out
            },
            CanonicalError::BadVersion(a) => {
                let mut out = "invalid version: ".to_owned();
                out.append(a.as_str());
                out
            },
            CanonicalError::BadDestination(a) => {
                let mut out = "invalid network destination: ".to_owned();
                out.append(a.as_str());
                out
            },
            CanonicalError::AmbiguousWildcard(a) => {
                let mut out = "ambiguous wildcard rejected: ".to_owned();
                out.append(a.as_str());
                out
            },
            CanonicalError::DnsIpMix => "DNS names and IP ranges are not comparable".to_owned(),
            CanonicalError::BadPort(a) => {
                let mut out = "invalid port: ".to_owned();
                out.append(a.as_str());
                out
            },
            CanonicalError::BadSecretRef => "invalid secret reference".to_owned(),
            CanonicalError::BadAccountRef(a) => {
                let mut out = "invalid account reference: ".to_owned();
                out.append(a.as_str());
                out
            },
            CanonicalError::BadModelClass(a) => {
                let mut out = "invalid model class: ".to_owned();
                out.append(a.as_str());
                out
            },
            CanonicalError::Incomparable => "resource types are not comparable".to_owned(),
            CanonicalError::Io(a) => {
                let mut out = "io error resolving path: ".to_owned();
                out.append(a.as_str());
                out
            },
            CanonicalError::InvalidEncoding(a) => {
                let mut out = "invalid encoding: ".to_owned();
                out.append(a);
                out
            },
        }
    }
}

/// The model of a canonicalization's outcome.
pub open spec fn outcome<T: View>(r: Result<T, CanonicalError>) -> Result<
    T::V,
    CanonicalErrorView,
> {
    match r {
        Ok(v) => Ok(v@),
        Err(e) => Err(e@),
    }
}

/// The model of the outcome of a check.
pub open spec fn unit_outcome(r: Result<(), CanonicalError>) -> Result<(), CanonicalErrorView> {
    match r {
        Ok(_) => Ok(()),
        Err(e) => Err(e@),
    }
}

/// The model of the outcome of a canonicalization that gives text.
pub open spec fn text_outcome(r: Result<String, CanonicalError>) -> Result<
    Seq<char>,
    CanonicalErrorView,
> {
    match r {
        Ok(v) => Ok(v@),
        Err(e) => Err(e@),
    }
}

} // verus!
