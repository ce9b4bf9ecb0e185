//! Tools, secrets, accounts, models and effects.

use super::{outcome, unit_outcome, CanonicalError, CanonicalErrorView};
use crate::text::{
    all_in_class, byte_len, chars_in_class, chars_lack, concat, contains_text, from_chars, has_text,
    lacks, lowercase, stands_at, str_byte_len, str_eq, surround, text_lt, to_chars,
};
use crate::pi_boundary::EffectClasses;
use crate::version::{requirement_matches, version_of_text, Version, VersionReq};
use vstd::prelude::*;

verus! {

/// A validated tool name: lower-case letters, digits and underscores in parts
/// that are separated by single dots.
#[derive(Debug, PartialEq, Eq, PartialOrd, Ord, Hash)]
pub struct ToolName {
    value: String,
}

impl View for ToolName {
    type V = Seq<char>;

    closed spec fn view(&self) -> Seq<char> {
        self.value@
    }
}

impl Clone for ToolName {
    fn clone(&self) -> (r: ToolName)
        ensures
            r@ == self@,
    {
        ToolName { value: self.value.clone() }
    }
}

/// What a text is as a tool name.
pub open spec fn tool_name(s: Seq<char>) -> Result<Seq<char>, CanonicalErrorView> {
    if s.len() == 0 {
        Err(CanonicalErrorView::Empty)
    } else if byte_len(s) > 128 {
        Err(CanonicalErrorView::TooLong)
    } else if all_in_class(s, true, false, true, "._"@) && s[0] != '.' && s.last() != '.'
        && !has_text(s, ".."@) {
        Ok(s)
    } else {
        Err(CanonicalErrorView::BadToolName(s))
    }
}

impl ToolName {
    /// Reads a tool name.
    pub fn parse(value: &str) -> (r: Result<ToolName, CanonicalError>)
        ensures
            outcome(r) == tool_name(value@),
    {
        if value.is_empty() {
            return Err(CanonicalError::Empty);
        }
        if str_byte_len(value) > 128 {
            return Err(CanonicalError::TooLong);
        }
        let c = to_chars(value);
        let n: usize = c.len();
        if chars_in_class(&c, true, false, true, "._") && c[0] != '.' && c[n - 1] != '.'
            && !contains_text(&c, "..") {
            Ok(ToolName { value: value.to_owned() })
        } else {
            Err(CanonicalError::BadToolName(value.to_owned()))
        }
    }

    /// The name.
    pub fn as_str(&self) -> (r: &str)
        ensures
            r@ == self@,
    {
        self.value.as_str()
    }

    /// The canonical form.
    pub fn canonical_form(&self) -> (r: String)
        ensures
            r@ == "tool:"@ + self@,
    {
        concat("tool:", self.value.as_str())
    }
}

/// A scope entry for one tool: the versions that are allowed.
#[derive(Clone, Debug, PartialEq, Eq)]
pub struct ToolGrant {
    pub name: ToolName,
    pub allowed: VersionReq,
}

/// The model of a `ToolGrant`.
pub struct ToolGrantView {
    pub name: Seq<char>,
    pub allowed: Seq<char>,
}

impl View for ToolGrant {
    type V = ToolGrantView;

    open spec fn view(&self) -> ToolGrantView {
        ToolGrantView { name: self.name@, allowed: self.allowed@ }
    }
}

/// The version that a requirement pins, where it is one exact pin.
pub open spec fn exact_pin_of(req: Seq<char>) -> Option<Seq<char>> {
    if req.len() == 0 || req[0] != '=' {
        None
    } else {
        let pinned = req.skip(1);
        if !lacks(pinned, ',') || !lacks(pinned, ' ') || has_text(pinned, "||"@) {
            None
        } else {
            version_of_text(pinned)
        }
    }
}

/// Whether a child's requirement for the tool `name` is covered by the
/// parent's: the child pins an exact version that the parent allows. A child
/// that pins none is refused.
pub open spec fn tool_subset(name: Seq<char>, child: Seq<char>, parent: Seq<char>) -> Result<
    (),
    CanonicalErrorView,
> {
    match exact_pin_of(child) {
        None => Err(
            CanonicalErrorView::BadVersion(
                "child tool grant for "@ + name + " must pin an exact version"@,
            ),
        ),
        Some(pinned) => if requirement_matches(parent, pinned) {
            Ok(())
        } else {
            Err(
                CanonicalErrorView::BadVersion(
                    "version "@ + pinned + " not allowed by parent requirement "@ + parent,
                ),
            )
        },
    }
}

/// The version that `req` pins, where it is exactly one pin.
pub fn exact_pin(req: &VersionReq) -> (r: Option<Version>)
    ensures
        match r {
            Some(v) => exact_pin_of(req@) == Some(v@),
            None => exact_pin_of(req@) is None,
        },
{
    let c = to_chars(req.as_str());
    if c.len() == 0 || c[0] != '=' {
        return None;
    }
    let pinned = from_chars(&c, 1, c.len());
    proof {
        assert(pinned@ =~= req@.skip(1));
    }
    let p = to_chars(pinned.as_str());
    if !chars_lack(&p, ',') || !chars_lack(&p, ' ') || contains_text(&p, "||") {
        return None;
    }
    Version::parse(pinned.as_str())
}

impl ToolGrant {
    /// Whether this grant is covered by `parent`: the same tool, and an exact
    /// pin that the parent's requirement allows.
    pub fn is_subset_of(&self, parent: &ToolGrant) -> (r: Result<(), CanonicalError>)
        ensures
            unit_outcome(r) == (if self@.name != parent@.name {
                Err(CanonicalErrorView::Incomparable)
            } else {
                tool_subset(self@.name, self@.allowed, parent@.allowed)
            }),
    {
        if !str_eq(self.name.as_str(), parent.name.as_str()) {
            return Err(CanonicalError::Incomparable);
        }
        check_tool(self.name.as_str(), &self.allowed, &parent.allowed)
    }

    /// Whether `version` is allowed.
    pub fn allows(&self, version: &Version) -> (r: bool)
        ensures
            r == requirement_matches(self@.allowed, version@),
    {
        self.allowed.matches(version)
    }
}

/// Whether a child's requirement for the tool `name` is covered by the
/// parent's.
pub(crate) fn check_tool(name: &str, child: &VersionReq, parent: &VersionReq) -> (r: Result<
    (),
    CanonicalError,
>)
    ensures
        unit_outcome(r) == tool_subset(name@, child@, parent@),
{
    match exact_pin(child) {
        None => Err(
            CanonicalError::BadVersion(
                surround("child tool grant for ", name, " must pin an exact version"),
            ),
        ),
        Some(pinned) => {
            if parent.matches(&pinned) {
                Ok(())
            } else {
                let mut text = concat("version ", pinned.as_str());
                text.append(" not allowed by parent requirement ");
                text.append(parent.as_str());
                Err(CanonicalError::BadVersion(text))
            }
        },
    }
}

/// An opaque secret reference, never the secret itself.
#[derive(Clone, Debug, PartialEq, Eq, PartialOrd, Ord, Hash)]
pub struct SecretRef {
    value: String,
}

impl View for SecretRef {
    type V = Seq<char>;

    closed spec fn view(&self) -> Seq<char> {
        self.value@
    }
}

/// What a text is as a secret reference.
pub open spec fn secret_ref(s: Seq<char>) -> Result<Seq<char>, CanonicalErrorView> {
    if s.len() == 0 {
        Err(CanonicalErrorView::Empty)
    } else if byte_len(s) > 256 {
        Err(CanonicalErrorView::TooLong)
    } else if all_in_class(s, true, true, true, "._:/-"@) {
        Ok(s)
    } else {
        Err(CanonicalErrorView::BadSecretRef)
    }
}

impl SecretRef {
    /// Reads a secret reference.
    pub fn parse(value: &str) -> (r: Result<SecretRef, CanonicalError>)
        ensures
            outcome(r) == secret_ref(value@),
    {
        if value.is_empty() {
            return Err(CanonicalError::Empty);
        }
        if str_byte_len(value) > 256 {
            return Err(CanonicalError::TooLong);
        }
        if chars_in_class(&to_chars(value), true, true, true, "._:/-") {
            Ok(SecretRef { value: value.to_owned() })
        } else {
            Err(CanonicalError::BadSecretRef)
        }
    }

    /// The reference.
    pub fn as_str(&self) -> (r: &str)
        ensures
            r@ == self@,
    {
        self.value.as_str()
    }

    /// The canonical form.
    pub fn canonical_form(&self) -> (r: String)
        ensures
            r@ == "secret:"@ + self@,
    {
        concat("secret:", self.value.as_str())
    }
}

/// A typed external account: the provider and the provider's account identity.
#[derive(Debug, PartialEq, Eq, PartialOrd, Ord, Hash)]
pub struct AccountRef {
    pub provider: String,
    pub account_id: String,
}

/// The model of an `AccountRef`.
pub struct AccountView {
    pub provider: Seq<char>,
    pub account_id: Seq<char>,
}

impl View for AccountRef {
    type V = AccountView;

    open spec fn view(&self) -> AccountView {
        AccountView { provider: self.provider@, account_id: self.account_id@ }
    }
}

impl Clone for AccountRef {
    fn clone(&self) -> (r: AccountRef)
        ensures
            r@ == self@,
    {
        AccountRef { provider: self.provider.clone(), account_id: self.account_id.clone() }
    }
}

impl AccountView {
    /// The canonical form.
    pub open spec fn form(self) -> Seq<char> {
        "account:"@ + self.provider + ":"@ + self.account_id
    }

    /// By provider, then by account.
    pub open spec fn lt(self, other: AccountView) -> bool {
        text_lt(self.provider, other.provider) || (self.provider == other.provider && text_lt(
            self.account_id,
            other.account_id,
        ))
    }
}

/// Why one part of an account reference is refused.
pub open spec fn account_part(v: Seq<char>, name: Seq<char>) -> Option<CanonicalErrorView> {
    if v.len() == 0 {
        Some(CanonicalErrorView::Empty)
    } else if byte_len(v) > 256 {
        Some(CanonicalErrorView::TooLong)
    } else if !all_in_class(v, true, true, true, "._:-@"@) {
        Some(CanonicalErrorView::BadAccountRef(name + ": "@ + v))
    } else {
        None
    }
}

/// What a provider and an account identity are as a reference.
pub open spec fn account_ref(provider: Seq<char>, account_id: Seq<char>) -> Result<
    AccountView,
    CanonicalErrorView,
> {
    if let Some(e) = account_part(provider, "provider"@) {
        Err(e)
    } else if let Some(e) = account_part(account_id, "account id"@) {
        Err(e)
    } else {
        Ok(AccountView { provider: lowercase(provider), account_id })
    }
}

fn check_account_part(v: &str, name: &str) -> (r: Option<CanonicalError>)
    ensures
        match r {
            Some(e) => account_part(v@, name@) == Some(e@),
            None => account_part(v@, name@) is None,
        },
{
    if v.is_empty() {
        Some(CanonicalError::Empty)
    } else if str_byte_len(v) > 256 {
        Some(CanonicalError::TooLong)
    } else if !chars_in_class(&to_chars(v), true, true, true, "._:-@") {
        Some(CanonicalError::BadAccountRef(surround(name, ": ", v)))
    } else {
        None
    }
}

impl AccountRef {
    /// Reads an account reference. The provider is lower-cased.
    pub fn parse(provider: &str, account_id: &str) -> (r: Result<AccountRef, CanonicalError>)
        ensures
            outcome(r) == account_ref(provider@, account_id@),
    {
        if let Some(e) = check_account_part(provider, "provider") {
            return Err(e);
        }
        if let Some(e) = check_account_part(account_id, "account id") {
            return Err(e);
        }
        Ok(AccountRef { provider: provider.to_lowercase(), account_id: account_id.to_owned() })
    }

    /// Accepts a decoded reference only as it stands: a provider that is not
    /// lower-case already is refused.
    pub fn decode(provider: &str, account_id: &str) -> (r: Result<AccountRef, CanonicalError>)
        ensures
            outcome(r) == (match account_ref(provider@, account_id@) {
                Err(e) => Err(e),
                Ok(a) => if a.provider == provider@ {
                    Ok(a)
                } else {
                    Err(
                        CanonicalErrorView::InvalidEncoding(
                            "account provider must already be canonical"@,
                        ),
                    )
                },
            }),
    {
        let a = AccountRef::parse(provider, account_id)?;
        if str_eq(a.provider.as_str(), provider) {
            Ok(a)
        } else {
            Err(CanonicalError::InvalidEncoding("account provider must already be canonical"))
        }
    }

    /// The canonical form.
    pub fn canonical_form(&self) -> (r: String)
        ensures
            r@ == self@.form(),
    {
        let mut out = surround("account:", self.provider.as_str(), ":");
        out.append(self.account_id.as_str());
        out
    }

    /// Whether both name the same account of the same provider.
    pub fn same(&self, other: &AccountRef) -> (r: bool)
        ensures
            r == (self@ == other@),
    {
        str_eq(self.provider.as_str(), other.provider.as_str()) && str_eq(
            self.account_id.as_str(),
            other.account_id.as_str(),
        )
    }
}

/// A permitted class of models of one provider.
#[derive(Clone, Debug, PartialEq, Eq, PartialOrd, Ord, Hash)]
pub struct ModelClass {
    pub provider: String,
    pub class: String,
}

/// The model of a `ModelClass`.
pub struct ModelClassView {
    pub provider: Seq<char>,
    pub class: Seq<char>,
}

impl View for ModelClass {
    type V = ModelClassView;

    open spec fn view(&self) -> ModelClassView {
        ModelClassView { provider: self.provider@, class: self.class@ }
    }
}

/// Why one part of a model class is refused.
pub open spec fn model_part(v: Seq<char>, what: Seq<char>) -> Option<CanonicalErrorView> {
    if v.len() == 0 {
        Some(CanonicalErrorView::Empty)
    } else if byte_len(v) > 128 {
        Some(CanonicalErrorView::TooLong)
    } else if !all_in_class(v, true, false, true, "-_"@) {
        Some(CanonicalErrorView::BadModelClass(what + ": "@ + v))
    } else {
        None
    }
}

/// What a provider and a class are as a model class.
pub open spec fn model_class(provider: Seq<char>, class: Seq<char>) -> Result<
    ModelClassView,
    CanonicalErrorView,
> {
    if let Some(e) = model_part(provider, "provider"@) {
        Err(e)
    } else if let Some(e) = model_part(class, "class"@) {
        Err(e)
    } else {
        Ok(ModelClassView { provider, class })
    }
}

fn check_model_part(v: &str, what: &str) -> (r: Option<CanonicalError>)
    ensures
        match r {
            Some(e) => model_part(v@, what@) == Some(e@),
            None => model_part(v@, what@) is None,
        },
{
    if v.is_empty() {
        Some(CanonicalError::Empty)
    } else if str_byte_len(v) > 128 {
        Some(CanonicalError::TooLong)
    } else if !chars_in_class(&to_chars(v), true, false, true, "-_") {
        Some(CanonicalError::BadModelClass(surround(what, ": ", v)))
    } else {
        None
    }
}

impl ModelClass {
    /// Reads a model class.
    pub fn parse(provider: &str, class: &str) -> (r: Result<ModelClass, CanonicalError>)
        ensures
            outcome(r) == model_class(provider@, class@),
    {
        if let Some(e) = check_model_part(provider, "provider") {
            return Err(e);
        }
        if let Some(e) = check_model_part(class, "class") {
            return Err(e);
        }
        Ok(ModelClass { provider: provider.to_owned(), class: class.to_owned() })
    }

    /// The canonical form.
    pub fn canonical_form(&self) -> (r: String)
        ensures
            r@ == "model:"@ + self@.provider + ":"@ + self@.class,
    {
        let mut out = surround("model:", self.provider.as_str(), ":");
        out.append(self.class.as_str());
        out
    }
}

/// Effect classes of lease scopes.
#[derive(Clone, Copy, Debug, PartialEq, Eq, Hash, Structural)]
pub enum EffectClass {
    Read,
    Write,
    Network,
    Execute,
    SecretUse,
    MessageSend,
}

/// The effects that declared flags stand for. A declared secret stands for its
/// use, and no flag stands for sending messages.
pub open spec fn wire_effects(flags: EffectClasses, secret_refs: int) -> Seq<EffectClass> {
    let none = Seq::<EffectClass>::empty();
    let read = if flags.file_read {
        none.push(EffectClass::Read)
    } else {
        none
    };
    let write = if flags.file_write {
        read.push(EffectClass::Write)
    } else {
        read
    };
    let network = if flags.network_egress || flags.network_ingress {
        write.push(EffectClass::Network)
    } else {
        write
    };
    let execute = if flags.process_spawn {
        network.push(EffectClass::Execute)
    } else {
        network
    };
    if secret_refs > 0 {
        execute.push(EffectClass::SecretUse)
    } else {
        execute
    }
}

impl EffectClass {
    /// The effects that declared flags and secrets stand for.
    pub fn from_wire(flags: &EffectClasses, secret_refs: usize) -> (r: Vec<EffectClass>)
        ensures
            r@ == wire_effects(*flags, secret_refs as int),
            !r@.contains(EffectClass::MessageSend),
    {
        let mut out: Vec<EffectClass> = Vec::new();
        if flags.file_read {
            out.push(EffectClass::Read);
        }
        if flags.file_write {
            out.push(EffectClass::Write);
        }
        if flags.network_egress || flags.network_ingress {
            out.push(EffectClass::Network);
        }
        if flags.process_spawn {
            out.push(EffectClass::Execute);
        }
        if secret_refs > 0 {
            out.push(EffectClass::SecretUse);
        }
        out
    }
}

impl EffectClass {
    /// The name in a canonical encoding.
    pub open spec fn label(self) -> Seq<char> {
        match self {
            EffectClass::Read => "Read"@,
            EffectClass::Write => "Write"@,
            EffectClass::Network => "Network"@,
            EffectClass::Execute => "Execute"@,
            EffectClass::SecretUse => "SecretUse"@,
            EffectClass::MessageSend => "MessageSend"@,
        }
    }

    /// The name in a canonical encoding.
    pub fn label_str(self) -> (r: &'static str)
        ensures
            r@ == self.label(),
    {
        match self {
            EffectClass::Read => "Read",
            EffectClass::Write => "Write",
            EffectClass::Network => "Network",
            EffectClass::Execute => "Execute",
            EffectClass::SecretUse => "SecretUse",
            EffectClass::MessageSend => "MessageSend",
        }
    }
}

/// Every effect of the child is granted by the parent.
pub open spec fn effects_within(child: Seq<EffectClass>, parent: Seq<EffectClass>) -> bool {
    forall|i: int| 0 <= i < child.len() ==> parent.contains(#[trigger] child[i])
}

/// Whether every effect of the child is granted by the parent.
pub fn effects_subset(child: &Vec<EffectClass>, parent: &Vec<EffectClass>) -> (r: bool)
    ensures
        r == effects_within(child@, parent@),
{
    let mut i: usize = 0;
    while i < child.len()
        invariant
            i <= child@.len(),
            forall|k: int| 0 <= k < i ==> parent@.contains(#[trigger] child@[k]),
        decreases child@.len() - i,
    {
        let mut found = false;
        let mut j: usize = 0;
        while j < parent.len()
            invariant
                i < child@.len(),
                j <= parent@.len(),
                found == exists|k: int| 0 <= k < j && parent@[k] == child@[i as int],
            decreases parent@.len() - j,
        {
            if parent[j] == child[i] {
                proof {
                    assert(parent@[j as int] == child@[i as int]);
                }
                found = true;
            }
            j += 1;
        }
        if !found {
            proof {
                assert(!parent@.contains(child@[i as int]));
            }
            return false;
        }
        i += 1;
    }
    true
}

/// The subset of effects is reflexive and transitive.
pub proof fn effects_subset_is_transitive(
    a: Seq<EffectClass>,
    b: Seq<EffectClass>,
    c: Seq<EffectClass>,
)
    ensures
        effects_within(a, a),
        effects_within(a, b) && effects_within(b, c) ==> effects_within(a, c),
{
    if effects_within(a, b) && effects_within(b, c) {
        assert forall|i: int| 0 <= i < a.len() implies c.contains(#[trigger] a[i]) by {
            let j = choose|j: int| 0 <= j < b.len() && b[j] == a[i];
            assert(c.contains(b[j]));
        }
    }
}

/// A lower-case letter or a digit of ASCII.
pub open spec fn lower_or_digit(c: char) -> bool {
    'a' as int <= c as int <= 'z' as int || '0' as int <= c as int <= '9' as int
}

/// An upper-case letter of ASCII.
pub open spec fn is_upper(c: char) -> bool {
    'A' as int <= c as int <= 'Z' as int
}

/// A text is a tool name exactly if it is lower-case letters, digits,
/// underscores and dots, at least one character and at most 128 bytes, with no
/// dot at either end and no two dots in a row. It is then its own name.
pub proof fn tool_names_are_dotted_words(s: Seq<char>)
    ensures
        tool_name(s) is Ok <==> {
            &&& s.len() > 0 && byte_len(s) <= 128
            &&& forall|i: int|
                0 <= i < s.len() ==> lower_or_digit(#[trigger] s[i]) || s[i] == '_' || s[i] == '.'
            &&& s[0] != '.' && s[s.len() - 1] != '.'
            &&& forall|i: int, j: int|
                0 <= i && j == i + 1 && j < s.len() ==> #[trigger] s[i] != '.' || #[trigger] s[j]
                    != '.'
        },
        tool_name(s) matches Ok(n) ==> n == s,
{
    reveal_strlit("._");
    reveal_strlit("..");
    assert("._"@[0] == '.' && "._"@[1] == '_' && "._"@.len() == 2);
    assert(".."@[0] == '.' && ".."@[1] == '.' && ".."@.len() == 2);
    assert forall|c: char| #[trigger] "._"@.contains(c) <==> c == '.' || c == '_' by {
        assert("._"@.contains("._"@[0]) && "._"@.contains("._"@[1]));
    }
    assert(all_in_class(s, true, false, true, "._"@) <==> forall|i: int|
        0 <= i < s.len() ==> lower_or_digit(#[trigger] s[i]) || s[i] == '_' || s[i] == '.');
    if has_text(s, ".."@) {
        let i = choose|i: int| stands_at(s, i, ".."@);
        assert(s.subrange(i, i + 2)[0] == s[i] && s.subrange(i, i + 2)[1] == s[i + 1]);
        assert(s[i] == '.' && s[i + 1] == '.');
    } else {
        assert forall|i: int, j: int|
            0 <= i && j == i + 1 && j < s.len() implies #[trigger] s[i] != '.' || #[trigger] s[j]
            != '.' by {
            if s[i] == '.' && s[j] == '.' {
                assert(s.subrange(i, i + 2) =~= ".."@);
                assert(stands_at(s, i, ".."@));
            }
        }
    }
}

/// A text is a secret reference exactly if it is letters, digits, dots,
/// underscores, colons, slashes and hyphens of ASCII, at least one and at most
/// 256 bytes.
pub proof fn secret_references_are_plain(s: Seq<char>)
    ensures
        secret_ref(s) is Ok <==> {
            &&& s.len() > 0 && byte_len(s) <= 256
            &&& forall|i: int|
                0 <= i < s.len() ==> lower_or_digit(#[trigger] s[i]) || is_upper(s[i]) || s[i]
                    == '.' || s[i] == '_' || s[i] == ':' || s[i] == '/' || s[i] == '-'
        },
        secret_ref(s) matches Ok(n) ==> n == s,
{
    reveal_strlit("._:/-");
    let x = "._:/-"@;
    assert(x[0] == '.' && x[1] == '_' && x[2] == ':' && x[3] == '/' && x[4] == '-' && x.len() == 5);
    assert forall|c: char| #[trigger]
        x.contains(c) <==> c == '.' || c == '_' || c == ':' || c == '/' || c == '-' by {
        assert(x.contains(x[0]) && x.contains(x[1]) && x.contains(x[2]) && x.contains(x[3])
            && x.contains(x[4]));
    }
    assert(all_in_class(s, true, true, true, x) <==> forall|i: int|
        0 <= i < s.len() ==> lower_or_digit(#[trigger] s[i]) || is_upper(s[i]) || s[i] == '.'
            || s[i] == '_' || s[i] == ':' || s[i] == '/' || s[i] == '-');
}

/// Both parts of an account reference are held to the same characters and
/// length. The provider is taken in lower case, and the account as it is.
pub proof fn account_references_hold_both_parts(provider: Seq<char>, account: Seq<char>)
    ensures
        ({
            let fits = |v: Seq<char>|
                v.len() > 0 && byte_len(v) <= 256 && forall|i: int|
                    0 <= i < v.len() ==> lower_or_digit(#[trigger] v[i]) || is_upper(v[i]) || v[i]
                        == '.' || v[i] == '_' || v[i] == ':' || v[i] == '-' || v[i] == '@';
            &&& account_ref(provider, account) is Ok <==> fits(provider) && fits(account)
            &&& account_ref(provider, account) matches Ok(a) ==> a.provider == lowercase(provider)
                && a.account_id == account
        }),
{
    reveal_strlit("._:-@");
    let x = "._:-@"@;
    assert(x[0] == '.' && x[1] == '_' && x[2] == ':' && x[3] == '-' && x[4] == '@' && x.len() == 5);
    assert forall|c: char| #[trigger]
        x.contains(c) <==> c == '.' || c == '_' || c == ':' || c == '-' || c == '@' by {
        assert(x.contains(x[0]) && x.contains(x[1]) && x.contains(x[2]) && x.contains(x[3])
            && x.contains(x[4]));
    }
    assert forall|v: Seq<char>| #[trigger]
        all_in_class(v, true, true, true, x) <==> forall|i: int|
            0 <= i < v.len() ==> lower_or_digit(#[trigger] v[i]) || is_upper(v[i]) || v[i] == '.'
                || v[i] == '_' || v[i] == ':' || v[i] == '-' || v[i] == '@' by {}
}

/// Both parts of a model class are lower-case letters, digits, hyphens and
/// underscores, at least one and at most 128 bytes, and are taken as they are.
pub proof fn model_classes_hold_both_parts(provider: Seq<char>, class: Seq<char>)
    ensures
        ({
            let fits = |v: Seq<char>|
                v.len() > 0 && byte_len(v) <= 128 && forall|i: int|
                    0 <= i < v.len() ==> lower_or_digit(#[trigger] v[i]) || v[i] == '-' || v[i]
                        == '_';
            &&& model_class(provider, class) is Ok <==> fits(provider) && fits(class)
            &&& model_class(provider, class) matches Ok(m) ==> m.provider == provider && m.class
                == class
        }),
{
    reveal_strlit("-_");
    let x = "-_"@;
    assert(x[0] == '-' && x[1] == '_' && x.len() == 2);
    assert forall|c: char| #[trigger] x.contains(c) <==> c == '-' || c == '_' by {
        assert(x.contains(x[0]) && x.contains(x[1]));
    }
    assert forall|v: Seq<char>| #[trigger]
        all_in_class(v, true, false, true, x) <==> forall|i: int|
            0 <= i < v.len() ==> lower_or_digit(#[trigger] v[i]) || v[i] == '-' || v[i] == '_' by {}
}

/// A child's tool is covered exactly if its requirement is an equals sign and a
/// single version, and the parent's requirement admits that version.
pub proof fn covered_tools_pin_an_admitted_version(
    name: Seq<char>,
    child: Seq<char>,
    parent: Seq<char>,
)
    ensures
        tool_subset(name, child, parent) is Ok <==> {
            &&& child.len() > 0 && child[0] == '='
            &&& forall|i: int| 1 <= i < child.len() ==> #[trigger] child[i] != ',' && child[i] != ' '
            &&& !has_text(child.skip(1), "||"@)
            &&& version_of_text(child.skip(1)) matches Some(v) && requirement_matches(parent, v)
        },
{
    if child.len() > 0 {
        let pinned = child.skip(1);
        assert forall|i: int| 1 <= i < child.len() implies #[trigger] child[i] == pinned[i - 1] by {}
        assert forall|i: int| 0 <= i < pinned.len() implies #[trigger] pinned[i] == child[i + 1] by {}
        if lacks(pinned, ',') && lacks(pinned, ' ') {
            assert forall|i: int| 1 <= i < child.len() implies #[trigger] child[i] != ','
                && child[i] != ' ' by {
                assert(pinned[i - 1] != ',' && pinned[i - 1] != ' ');
            }
        }
    }
}

} // verus!
