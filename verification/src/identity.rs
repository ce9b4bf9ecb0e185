//! Who acts, and where.

use crate::ids::{random_uuid, uuid_text, uuid_to_text};
use crate::text::{
    chars_lack, is_lower_name, is_plain_text, lacks, lower_name, plain_text, str_eq, surround,
    to_chars,
};
use vstd::prelude::*;

verus! {

/// The identity of a workspace.
#[derive(Clone, Copy, Debug, PartialEq, Eq, PartialOrd, Ord, Hash, Structural)]
pub struct WorkspaceId {
    pub value: u128,
}

impl WorkspaceId {
    /// A fresh random identity.
    pub fn new() -> (r: WorkspaceId)
        ensures
            r.value & 0xF000_C000_0000_0000_0000 == 0x4000_8000_0000_0000_0000,
    {
        WorkspaceId { value: random_uuid() }
    }

    /// The identity with the given bits.
    pub fn from_uuid(value: u128) -> (r: WorkspaceId)
        ensures
            r.value == value,
    {
        WorkspaceId { value }
    }

    /// The bits of the identity.
    pub fn as_uuid(&self) -> (r: u128)
        ensures
            r == self.value,
    {
        self.value
    }

    /// The hyphenated text.
    pub fn to_text(&self) -> (r: String)
        ensures
            r@ == uuid_text(self.value),
    {
        uuid_to_text(self.value)
    }
}

impl Default for WorkspaceId {
    fn default() -> (r: WorkspaceId)
        ensures
            r.value & 0xF000_C000_0000_0000_0000 == 0x4000_8000_0000_0000_0000,
    {
        WorkspaceId::new()
    }
}

/// Why an identity is refused.
#[derive(Clone, Copy, Debug, PartialEq, Eq)]
pub enum IdentityError {
    InvalidPart { field: &'static str },
    InvalidChannelPart { field: &'static str },
    InvalidComponentId,
}

impl IdentityError {
    /// The message of the error.
    pub open spec fn text(self) -> Seq<char> {
        match self {
            IdentityError::InvalidPart { field } => "identity "@ + field@
                + " must be non-empty, bounded, and free of control characters"@,
            IdentityError::InvalidChannelPart { field } => "channel identity "@ + field@
                + " must be non-empty, bounded, and scope-safe"@,
            IdentityError::InvalidComponentId =>
                "component ID must use lowercase ASCII letters, digits, dots, underscores, or hyphens"@,
        }
    }

    /// The message of the error.
    pub fn message(&self) -> (r: String)
        ensures
            r@ == self.text(),
    {
        match self {
            IdentityError::InvalidPart { field } => surround(
                "identity ",
                field,
                " must be non-empty, bounded, and free of control characters",
            ),
            IdentityError::InvalidChannelPart { field } => surround(
                "channel identity ",
                field,
                " must be non-empty, bounded, and scope-safe",
            ),
            IdentityError::InvalidComponentId =>
                "component ID must use lowercase ASCII letters, digits, dots, underscores, or hyphens".to_owned(),
        }
    }
}

/// A part of a channel identity: plain, and without the separators of a scope.
pub open spec fn channel_part(s: Seq<char>) -> bool {
    plain_text(s, 256) && lacks(s, ':') && lacks(s, '/')
}

fn is_channel_part(s: &str) -> (r: bool)
    ensures
        r == channel_part(s@),
{
    if !is_plain_text(s, 256) {
        return false;
    }
    let c = to_chars(s);
    chars_lack(&c, ':') && chars_lack(&c, '/')
}

/// A user of an external channel.
#[derive(Clone, Debug, PartialEq, Eq, PartialOrd, Ord, Hash)]
pub struct ExternalChannelIdentity {
    provider: String,
    external_workspace_id: String,
    channel_id: String,
    external_user_id: String,
}

/// The model of an `ExternalChannelIdentity`.
pub struct ChannelIdentityView {
    pub provider: Seq<char>,
    pub external_workspace_id: Seq<char>,
    pub channel_id: Seq<char>,
    pub external_user_id: Seq<char>,
}

impl View for ExternalChannelIdentity {
    type V = ChannelIdentityView;

    closed spec fn view(&self) -> ChannelIdentityView {
        ChannelIdentityView {
            provider: self.provider@,
            external_workspace_id: self.external_workspace_id@,
            channel_id: self.channel_id@,
            external_user_id: self.external_user_id@,
        }
    }
}

/// The name of the first of three channel parts that is refused.
pub open spec fn bad_channel_part(
    provider: Seq<char>,
    workspace: Seq<char>,
    channel: Seq<char>,
) -> Option<Seq<char>> {
    if !channel_part(provider) {
        Some("provider"@)
    } else if !channel_part(workspace) {
        Some("external_workspace_id"@)
    } else if !channel_part(channel) {
        Some("channel_id"@)
    } else {
        None
    }
}

fn check_channel(provider: &str, workspace: &str, channel: &str) -> (r: Result<(), IdentityError>)
    ensures
        match r {
            Ok(_) => bad_channel_part(provider@, workspace@, channel@) is None,
            Err(e) => e matches IdentityError::InvalidChannelPart { field } && bad_channel_part(
                provider@,
                workspace@,
                channel@,
            ) == Some(field@),
        },
{
    if !is_channel_part(provider) {
        return Err(IdentityError::InvalidChannelPart { field: "provider" });
    }
    if !is_channel_part(workspace) {
        return Err(IdentityError::InvalidChannelPart { field: "external_workspace_id" });
    }
    if !is_channel_part(channel) {
        return Err(IdentityError::InvalidChannelPart { field: "channel_id" });
    }
    Ok(())
}

impl ExternalChannelIdentity {
    /// Checks and takes the four parts.
    pub fn new(
        provider: String,
        external_workspace_id: String,
        channel_id: String,
        external_user_id: String,
    ) -> (r: Result<ExternalChannelIdentity, IdentityError>)
        ensures
            match r {
                Ok(v) => bad_channel_part(provider@, external_workspace_id@, channel_id@) is None
                    && channel_part(external_user_id@) && v@ == (ChannelIdentityView {
                    provider: provider@,
                    external_workspace_id: external_workspace_id@,
                    channel_id: channel_id@,
                    external_user_id: external_user_id@,
                }),
                Err(e) => e matches IdentityError::InvalidChannelPart { field } && match bad_channel_part(
                    provider@,
                    external_workspace_id@,
                    channel_id@,
                ) {
                    Some(f) => field@ == f,
                    None => !channel_part(external_user_id@) && field@ == "external_user_id"@,
                },
            },
    {
        if let Err(e) = check_channel(
            provider.as_str(),
            external_workspace_id.as_str(),
            channel_id.as_str(),
        ) {
            return Err(e);
        }
        if !is_channel_part(external_user_id.as_str()) {
            return Err(IdentityError::InvalidChannelPart { field: "external_user_id" });
        }
        Ok(ExternalChannelIdentity { provider, external_workspace_id, channel_id, external_user_id })
    }

    pub fn provider(&self) -> (r: &str)
        ensures
            r@ == self@.provider,
    {
        self.provider.as_str()
    }

    pub fn external_workspace_id(&self) -> (r: &str)
        ensures
            r@ == self@.external_workspace_id,
    {
        self.external_workspace_id.as_str()
    }

    pub fn channel_id(&self) -> (r: &str)
        ensures
            r@ == self@.channel_id,
    {
        self.channel_id.as_str()
    }

    pub fn external_user_id(&self) -> (r: &str)
        ensures
            r@ == self@.external_user_id,
    {
        self.external_user_id.as_str()
    }
}

/// A channel that messages are sent to.
#[derive(Clone, Debug, PartialEq, Eq, PartialOrd, Ord, Hash)]
pub struct ChannelDestination {
    provider: String,
    external_workspace_id: String,
    channel_id: String,
    scope_value: String,
}

/// The model of a `ChannelDestination`.
pub struct ChannelView {
    pub provider: Seq<char>,
    pub external_workspace_id: Seq<char>,
    pub channel_id: Seq<char>,
    pub scope_value: Seq<char>,
}

impl View for ChannelDestination {
    type V = ChannelView;

    closed spec fn view(&self) -> ChannelView {
        ChannelView {
            provider: self.provider@,
            external_workspace_id: self.external_workspace_id@,
            channel_id: self.channel_id@,
            scope_value: self.scope_value@,
        }
    }
}

/// The scope of a channel: its parts with colons between them.
pub open spec fn channel_scope(
    provider: Seq<char>,
    workspace: Seq<char>,
    channel: Seq<char>,
) -> Seq<char> {
    provider + ":"@ + workspace + ":"@ + channel
}

impl ChannelDestination {
    /// Checks and takes the three parts.
    pub fn new(provider: String, external_workspace_id: String, channel_id: String) -> (r: Result<
        ChannelDestination,
        IdentityError,
    >)
        ensures
            match r {
                Ok(v) => bad_channel_part(provider@, external_workspace_id@, channel_id@) is None
                    && v@ == (ChannelView {
                    provider: provider@,
                    external_workspace_id: external_workspace_id@,
                    channel_id: channel_id@,
                    scope_value: channel_scope(provider@, external_workspace_id@, channel_id@),
                }),
                Err(e) => e matches IdentityError::InvalidChannelPart { field } && bad_channel_part(
                    provider@,
                    external_workspace_id@,
                    channel_id@,
                ) == Some(field@),
            },
    {
        if let Err(e) = check_channel(
            provider.as_str(),
            external_workspace_id.as_str(),
            channel_id.as_str(),
        ) {
            return Err(e);
        }
        let mut scope_value = surround(provider.as_str(), ":", external_workspace_id.as_str());
        scope_value.append(":");
        scope_value.append(channel_id.as_str());
        Ok(ChannelDestination { provider, external_workspace_id, channel_id, scope_value })
    }

    pub fn provider(&self) -> (r: &str)
        ensures
            r@ == self@.provider,
    {
        self.provider.as_str()
    }

    pub fn external_workspace_id(&self) -> (r: &str)
        ensures
            r@ == self@.external_workspace_id,
    {
        self.external_workspace_id.as_str()
    }

    pub fn channel_id(&self) -> (r: &str)
        ensures
            r@ == self@.channel_id,
    {
        self.channel_id.as_str()
    }

    pub fn as_scope_value(&self) -> (r: &str)
        ensures
            r@ == self@.scope_value,
    {
        self.scope_value.as_str()
    }
}

/// Distinct channels have distinct scopes: no part holds the separator.
pub proof fn channel_scopes_are_distinct(
    p1: Seq<char>,
    w1: Seq<char>,
    c1: Seq<char>,
    p2: Seq<char>,
    w2: Seq<char>,
    c2: Seq<char>,
)
    requires
        bad_channel_part(p1, w1, c1) is None,
        bad_channel_part(p2, w2, c2) is None,
        channel_scope(p1, w1, c1) == channel_scope(p2, w2, c2),
    ensures
        p1 == p2,
        w1 == w2,
        c1 == c2,
{
    reveal_strlit(":");
    let s = channel_scope(p1, w1, c1);
    assert(s == p1 + (":"@ + (w1 + (":"@ + c1)))) by {
        assert(s =~= p1 + (":"@ + (w1 + (":"@ + c1))));
    }
    assert(s =~= p2 + (":"@ + (w2 + (":"@ + c2))));
    first_colon(p1, ":"@ + (w1 + (":"@ + c1)), p2, ":"@ + (w2 + (":"@ + c2)));
    let r1 = w1 + (":"@ + c1);
    let r2 = w2 + (":"@ + c2);
    assert((":"@ + r1).skip(1) =~= r1);
    assert((":"@ + r2).skip(1) =~= r2);
    first_colon(w1, ":"@ + c1, w2, ":"@ + c2);
    assert((":"@ + c1).skip(1) =~= c1);
    assert((":"@ + c2).skip(1) =~= c2);
}

proof fn first_colon(a: Seq<char>, x: Seq<char>, b: Seq<char>, y: Seq<char>)
    requires
        lacks(a, ':'),
        lacks(b, ':'),
        x.len() > 0 && x[0] == ':',
        y.len() > 0 && y[0] == ':',
        a + x == b + y,
    ensures
        a == b,
        x == y,
{
    let s = a + x;
    if a.len() < b.len() {
        assert(s[a.len() as int] == ':');
        assert((b + y)[a.len() as int] == b[a.len() as int]);
    } else if b.len() < a.len() {
        assert((b + y)[b.len() as int] == ':');
        assert(s[b.len() as int] == a[b.len() as int]);
    }
    assert(a =~= s.take(a.len() as int));
    assert(b =~= (b + y).take(a.len() as int));
    assert(x =~= s.skip(a.len() as int));
    assert(y =~= (b + y).skip(a.len() as int));
}

/// A person or service, as an identity provider names it.
#[derive(Debug, PartialEq, Eq, PartialOrd, Ord, Hash)]
pub struct PrincipalId {
    provider: String,
    subject: String,
}

/// The model of a `PrincipalId`.
pub struct PrincipalView {
    pub provider: Seq<char>,
    pub subject: Seq<char>,
}

impl View for PrincipalId {
    type V = PrincipalView;

    closed spec fn view(&self) -> PrincipalView {
        PrincipalView { provider: self.provider@, subject: self.subject@ }
    }
}

impl Clone for PrincipalId {
    fn clone(&self) -> (r: PrincipalId)
        ensures
            r@ == self@,
    {
        PrincipalId { provider: self.provider.clone(), subject: self.subject.clone() }
    }
}

impl PrincipalId {
    /// Checks and takes the two parts.
    pub fn new(provider: String, subject: String) -> (r: Result<PrincipalId, IdentityError>)
        ensures
            match r {
                Ok(v) => plain_text(provider@, 512) && plain_text(subject@, 512) && v@
                    == (PrincipalView { provider: provider@, subject: subject@ }),
                Err(e) => e matches IdentityError::InvalidPart { field } && if !plain_text(
                    provider@,
                    512,
                ) {
                    field@ == "provider"@
                } else {
                    !plain_text(subject@, 512) && field@ == "subject"@
                },
            },
    {
        if !is_plain_text(provider.as_str(), 512) {
            return Err(IdentityError::InvalidPart { field: "provider" });
        }
        if !is_plain_text(subject.as_str(), 512) {
            return Err(IdentityError::InvalidPart { field: "subject" });
        }
        Ok(PrincipalId { provider, subject })
    }

    pub fn provider(&self) -> (r: &str)
        ensures
            r@ == self@.provider,
    {
        self.provider.as_str()
    }

    pub fn subject(&self) -> (r: &str)
        ensures
            r@ == self@.subject,
    {
        self.subject.as_str()
    }

    /// Whether both name the same principal.
    pub fn same(&self, other: &PrincipalId) -> (r: bool)
        ensures
            r == (self@ == other@),
    {
        str_eq(self.provider.as_str(), other.provider.as_str()) && str_eq(
            self.subject.as_str(),
            other.subject.as_str(),
        )
    }
}

/// The name of a component.
#[derive(Debug, PartialEq, Eq, PartialOrd, Ord, Hash)]
pub struct ComponentId {
    value: String,
}

impl View for ComponentId {
    type V = Seq<char>;

    closed spec fn view(&self) -> Seq<char> {
        self.value@
    }
}

impl Clone for ComponentId {
    fn clone(&self) -> (r: ComponentId)
        ensures
            r@ == self@,
    {
        ComponentId { value: self.value.clone() }
    }
}

impl ComponentId {
    /// Checks and takes the text.
    pub fn new(value: String) -> (r: Result<ComponentId, IdentityError>)
        ensures
            match r {
                Ok(v) => lower_name(value@, 128) && v@ == value@,
                Err(e) => !(lower_name(value@, 128)) && e == IdentityError::InvalidComponentId,
            },
    {
        if !is_lower_name(value.as_str(), 128) {
            return Err(IdentityError::InvalidComponentId);
        }
        Ok(ComponentId { value })
    }

    /// The text.
    pub fn as_str(&self) -> (r: &str)
        ensures
            r@ == self@,
    {
        self.value.as_str()
    }
}

} // verus!
