//! URLs as plain values.

use crate::ip::IpAddress;
use crate::text::{byte_len, lacks};
use vstd::prelude::*;

verus! {

/// The host of a URL.
#[derive(Debug, PartialEq, Eq)]
pub enum UrlHost {
    Domain(String),
    Ip(IpAddress),
}

/// The model of a `UrlHost`.
pub enum UrlHostView {
    Domain(Seq<char>),
    Ip(IpAddress),
}

impl View for UrlHost {
    type V = UrlHostView;

    open spec fn view(&self) -> UrlHostView {
        match *self {
            UrlHost::Domain(d) => UrlHostView::Domain(d@),
            UrlHost::Ip(a) => UrlHostView::Ip(a),
        }
    }
}

/// The parts of a URL that the library reads.
#[derive(Debug, PartialEq, Eq)]
pub struct UrlParts {
    /// The normalized serialization.
    pub text: String,
    pub scheme: String,
    pub username: String,
    pub has_password: bool,
    pub host: Option<UrlHost>,
    /// The explicit port, or the default of a known scheme.
    pub port: Option<u16>,
    pub path: String,
    pub has_query: bool,
    pub has_fragment: bool,
}

/// The model of a `UrlParts`.
pub struct UrlView {
    pub text: Seq<char>,
    pub scheme: Seq<char>,
    pub username: Seq<char>,
    pub has_password: bool,
    pub host: Option<UrlHostView>,
    pub port: Option<u16>,
    pub path: Seq<char>,
    pub has_query: bool,
    pub has_fragment: bool,
}

impl View for UrlParts {
    type V = UrlView;

    open spec fn view(&self) -> UrlView {
        UrlView {
            text: self.text@,
            scheme: self.scheme@,
            username: self.username@,
            has_password: self.has_password,
            host: match self.host {
                Some(h) => Some(h@),
                None => None,
            },
            port: self.port,
            path: self.path@,
            has_query: self.has_query,
            has_fragment: self.has_fragment,
        }
    }
}

/// What a text parses to as a URL, its host left out: its parts, or the reason
/// why it is none.
pub uninterp spec fn url_fields_of_text(s: Seq<char>) -> Result<UrlView, Seq<char>>;

/// The host of the URL that a text parses to.
pub uninterp spec fn url_host_of_text(s: Seq<char>) -> Option<UrlHostView>;

/// What a text parses to as a URL: its parts, or the reason why it is none.
pub open spec fn url_of_text(s: Seq<char>) -> Result<UrlView, Seq<char>> {
    match url_fields_of_text(s) {
        Ok(u) => Ok(UrlView { host: url_host_of_text(s), ..u }),
        Err(e) => Err(e),
    }
}

/// The model of a parse.
pub open spec fn parsed_view(r: Result<UrlParts, String>) -> Result<UrlView, Seq<char>> {
    match r {
        Ok(u) => Ok(u@),
        Err(e) => Err(e@),
    }
}

/// `url::Url::parse`, with the parts that its accessors give but for the host.
/// What comes out depends on the text alone.
#[verifier::external_body]
fn parse_fields(s: &str) -> (r: Result<UrlParts, String>)
    ensures
        parsed_view(r) == url_fields_of_text(s@),
{
    let u = url::Url::parse(s).map_err(|e| e.to_string())?;
    Ok(UrlParts {
        text: u.to_string(),
        scheme: u.scheme().into(),
        username: u.username().into(),
        has_password: u.password().is_some(),
        host: None,
        port: u.port_or_known_default(),
        path: u.path().into(),
        has_query: u.query().is_some(),
        has_fragment: u.fragment().is_some(),
    })
}

/// `url::Url::host` of the URL `s`. What comes out depends on the text alone. A
/// domain holds no colon: the parser refuses it there.
#[verifier::external_body]
fn parse_host(s: &str) -> (r: Option<UrlHost>)
    ensures
        match r {
            Some(h) => url_host_of_text(s@) == Some(h@),
            None => url_host_of_text(s@) is None,
        },
        r matches Some(UrlHost::Domain(d)) ==> lacks(d@, ':'),
{
    match url::Url::parse(s).ok()?.host()? {
        url::Host::Domain(d) => Some(UrlHost::Domain(d.to_owned())),
        url::Host::Ipv4(a) => Some(UrlHost::Ip(IpAddress::V4(a.into()))),
        url::Host::Ipv6(a) => Some(UrlHost::Ip(IpAddress::V6(a.into()))),
    }
}

/// The parts of the URL `s`, or the reason why it is none.
pub fn parse_url(s: &str) -> (r: Result<UrlParts, String>)
    ensures
        parsed_view(r) == url_of_text(s@),
        r matches Ok(u) ==> (u.host matches Some(UrlHost::Domain(d)) ==> lacks(d@, ':')),
{
    match parse_fields(s) {
        Ok(u) => Ok(
            UrlParts {
                text: u.text,
                scheme: u.scheme,
                username: u.username,
                has_password: u.has_password,
                host: parse_host(s),
                port: u.port,
                path: u.path,
                has_query: u.has_query,
                has_fragment: u.has_fragment,
            },
        ),
        Err(e) => Err(e),
    }
}

/// The URL `s` can be given the path `path`: it is an HTTP or HTTPS URL that
/// ends with its path, `path` is that path with a slash behind it, and 32 bits
/// count the bytes of the longer text.
pub open spec fn path_settable(s: Seq<char>, path: Seq<char>) -> bool {
    url_of_text(s) matches Ok(u) && {
        &&& u.scheme == "http"@ || u.scheme == "https"@
        &&& !u.has_query
        &&& !u.has_fragment
        &&& path == u.path.push('/')
        &&& byte_len(u.text) < u32::MAX
    }
}

/// The text of the URL `s` after its path was set to `path`, where `s` is one.
pub uninterp spec fn url_with_path(s: Seq<char>, path: Seq<char>) -> Option<Seq<char>>;

/// `url::Url::set_path` on the URL `s`. That function panics where 32 bits cannot
/// count the bytes of the text before or after. The path of a parsed URL is
/// encoded already, so that the text grows by the slash alone.
#[verifier::external_body]
pub(crate) fn set_url_path(s: &str, path: &str) -> (r: Option<String>)
    requires
        path_settable(s@, path@),
    ensures
        match r {
            Some(t) => url_with_path(s@, path@) == Some(t@),
            None => url_with_path(s@, path@) is None,
        },
{
    let mut u = url::Url::parse(s).ok()?;
    u.set_path(path);
    Some(u.to_string())
}

} // verus!
