//! The rule that decides whether an action may run.

use crate::action::ActionEnvelope;
use crate::capability::{
    layers_allow, set_allows, Capability, CapabilityName, CapabilityView, EffectiveCapabilities,
};
use crate::lists::views;
use crate::text::{str_eq, surround};
use vstd::prelude::*;

verus! {

/// What the policy says of an action.
#[derive(Clone, Debug, PartialEq, Eq)]
pub enum PolicyDecision {
    Allow,
    Deny(DenialReason),
    RequireApproval,
}

/// Why an action is denied.
#[derive(Debug, PartialEq, Eq)]
pub enum DenialReason {
    NoCapabilitiesDeclared,
    MissingCapability(Capability),
}

/// The model of a `PolicyDecision`.
pub enum DecisionView {
    Allow,
    Deny(DenialView),
    RequireApproval,
}

/// The model of a `DenialReason`.
pub enum DenialView {
    NoCapabilitiesDeclared,
    MissingCapability(CapabilityView),
}

impl View for DenialReason {
    type V = DenialView;

    open spec fn view(&self) -> DenialView {
        match *self {
            DenialReason::NoCapabilitiesDeclared => DenialView::NoCapabilitiesDeclared,
            DenialReason::MissingCapability(c) => DenialView::MissingCapability(c@),
        }
    }
}

impl DenialView {
    /// The diagnostic text.
    pub open spec fn debug(self) -> Seq<char> {
        match self {
            DenialView::NoCapabilitiesDeclared => "NoCapabilitiesDeclared"@,
            DenialView::MissingCapability(c) => "MissingCapability("@ + c.debug() + ")"@,
        }
    }
}

impl DenialReason {
    /// The diagnostic text.
    pub fn debug(&self) -> (r: String)
        ensures
            r@ == self@.debug(),
    {
        match self {
            DenialReason::NoCapabilitiesDeclared => "NoCapabilitiesDeclared".to_owned(),
            DenialReason::MissingCapability(c) => surround(
                "MissingCapability(",
                c.debug().as_str(),
                ")",
            ),
        }
    }
}

impl View for PolicyDecision {
    type V = DecisionView;

    open spec fn view(&self) -> DecisionView {
        match *self {
            PolicyDecision::Allow => DecisionView::Allow,
            PolicyDecision::Deny(d) => DecisionView::Deny(d@),
            PolicyDecision::RequireApproval => DecisionView::RequireApproval,
        }
    }
}

impl Clone for DenialReason {
    fn clone(&self) -> (r: DenialReason)
        ensures
            r@ == self@,
    {
        match self {
            DenialReason::NoCapabilitiesDeclared => DenialReason::NoCapabilitiesDeclared,
            DenialReason::MissingCapability(c) => DenialReason::MissingCapability(c.clone()),
        }
    }
}

/// The version of a policy.
#[derive(Debug, PartialEq, Eq, PartialOrd, Ord, Hash)]
pub struct PolicyVersion {
    value: String,
}

impl View for PolicyVersion {
    type V = Seq<char>;

    closed spec fn view(&self) -> Seq<char> {
        self.value@
    }
}

impl Clone for PolicyVersion {
    fn clone(&self) -> (r: PolicyVersion)
        ensures
            r@ == self@,
    {
        PolicyVersion { value: self.value.clone() }
    }
}

impl PolicyVersion {
    /// The version with the given text.
    pub fn new(value: String) -> (r: PolicyVersion)
        ensures
            r@ == value@,
    {
        PolicyVersion { value }
    }

    /// The text.
    pub fn as_str(&self) -> (r: &str)
        ensures
            r@ == self@,
    {
        self.value.as_str()
    }

    /// Whether both are the same version.
    pub fn same(&self, other: &PolicyVersion) -> (r: bool)
        ensures
            r == (self@ == other@),
    {
        str_eq(self.value.as_str(), other.value.as_str())
    }
}

/// A policy: the capabilities whose use needs an approval.
#[derive(Clone, Debug, PartialEq, Eq)]
pub struct Policy {
    approval_required: Vec<CapabilityName>,
}

impl View for Policy {
    type V = Seq<CapabilityName>;

    closed spec fn view(&self) -> Seq<CapabilityName> {
        self.approval_required@
    }
}

/// The first required capability, from position `i` on, that is not allowed.
pub open spec fn first_missing(
    required: Seq<CapabilityView>,
    layers: Seq<Seq<CapabilityView>>,
    i: int,
) -> Option<CapabilityView>
    decreases required.len() - i,
{
    if i < 0 || i >= required.len() {
        None
    } else if !layers_allow(layers, required[i]) {
        Some(required[i])
    } else {
        first_missing(required, layers, i + 1)
    }
}

/// Some required capability needs an approval.
pub open spec fn needs_approval(
    required: Seq<CapabilityView>,
    approval_required: Seq<CapabilityName>,
) -> bool {
    exists|i: int|
        0 <= i < required.len() && approval_required.contains((#[trigger] required[i]).name)
}

/// What a policy says of an action under layers of capabilities: it is denied
/// without capabilities or with one that is not allowed, it needs an approval
/// if one of its capabilities does, and is allowed otherwise.
pub open spec fn decide(
    approval_required: Seq<CapabilityName>,
    required: Seq<CapabilityView>,
    layers: Seq<Seq<CapabilityView>>,
) -> DecisionView {
    if required.len() == 0 {
        DecisionView::Deny(DenialView::NoCapabilitiesDeclared)
    } else if first_missing(required, layers, 0) is Some {
        DecisionView::Deny(
            DenialView::MissingCapability(first_missing(required, layers, 0)->0),
        )
    } else if needs_approval(required, approval_required) {
        DecisionView::RequireApproval
    } else {
        DecisionView::Allow
    }
}

fn has_name(list: &Vec<CapabilityName>, name: CapabilityName) -> (r: bool)
    ensures
        r == list@.contains(name),
{
    let mut i: usize = 0;
    while i < list.len()
        invariant
            i <= list@.len(),
            forall|k: int| 0 <= k < i ==> list@[k] != name,
        decreases list@.len() - i,
    {
        if list[i] == name {
            return true;
        }
        i += 1;
    }
    false
}

impl Policy {
    /// What the policy says of `action` under `capabilities`.
    pub fn evaluate(
        &self,
        action: &ActionEnvelope,
        capabilities: &EffectiveCapabilities,
    ) -> (r: PolicyDecision)
        ensures
            r@ == decide(self@, action@.required_capabilities, capabilities@),
    {
        let required = action.required_capabilities();
        let ghost req = action@.required_capabilities;
        let ghost layers = capabilities@;
        if required.len() == 0 {
            return PolicyDecision::Deny(DenialReason::NoCapabilitiesDeclared);
        }
        let mut i: usize = 0;
        while i < required.len()
            invariant
                i <= required@.len(),
                req == views(required@),
                layers == capabilities@,
                first_missing(req, layers, 0) == first_missing(req, layers, i as int),
                req == action@.required_capabilities,
                req.len() > 0,
            decreases required@.len() - i,
        {
            if !capabilities.allows(&required[i]) {
                return PolicyDecision::Deny(DenialReason::MissingCapability(required[i].clone()));
            }
            i += 1;
        }
        let mut j: usize = 0;
        while j < required.len()
            invariant
                j <= required@.len(),
                req == views(required@),
                req == action@.required_capabilities,
                req.len() > 0,
                layers == capabilities@,
                first_missing(req, layers, 0) is None,
                forall|k: int| 0 <= k < j ==> !self@.contains((#[trigger] req[k]).name),
            decreases required@.len() - j,
        {
            if has_name(&self.approval_required, required[j].name()) {
                proof {
                    assert(self@.contains(req[j as int].name));
                }
                return PolicyDecision::RequireApproval;
            }
            j += 1;
        }
        PolicyDecision::Allow
    }
}

impl Default for Policy {
    /// Every capability but reading files needs an approval.
    fn default() -> (r: Policy)
        ensures
            forall|n: CapabilityName| #[trigger] r@.contains(n) <==> n != CapabilityName::FsRead,
    {
        let mut v: Vec<CapabilityName> = Vec::new();
        v.push(CapabilityName::FsWrite);
        v.push(CapabilityName::FsDelete);
        v.push(CapabilityName::ProcessSpawn);
        v.push(CapabilityName::NetConnect);
        v.push(CapabilityName::SecretUse);
        v.push(CapabilityName::MessageSend);
        v.push(CapabilityName::ScheduleCreate);
        v.push(CapabilityName::ScheduleModify);
        v.push(CapabilityName::PluginInstall);
        v.push(CapabilityName::PluginUpdate);
        v.push(CapabilityName::PluginEnable);
        v.push(CapabilityName::PolicyModify);
        proof {
            assert forall|n: CapabilityName| #[trigger] v@.contains(n) <==> n
                != CapabilityName::FsRead by {
                assert(v@[0] == CapabilityName::FsWrite);
                assert(v@[1] == CapabilityName::FsDelete);
                assert(v@[2] == CapabilityName::ProcessSpawn);
                assert(v@[3] == CapabilityName::NetConnect);
                assert(v@[4] == CapabilityName::SecretUse);
                assert(v@[5] == CapabilityName::MessageSend);
                assert(v@[6] == CapabilityName::ScheduleCreate);
                assert(v@[7] == CapabilityName::ScheduleModify);
                assert(v@[8] == CapabilityName::PluginInstall);
                assert(v@[9] == CapabilityName::PluginUpdate);
                assert(v@[10] == CapabilityName::PluginEnable);
                assert(v@[11] == CapabilityName::PolicyModify);
            }
        }
        Policy { approval_required: v }
    }
}

/// An action that is not denied has a capability, and every layer allows each
/// of its capabilities.
pub proof fn undenied_actions_are_within_every_layer(
    approval_required: Seq<CapabilityName>,
    required: Seq<CapabilityView>,
    layers: Seq<Seq<CapabilityView>>,
)
    requires
        !(decide(approval_required, required, layers) is Deny),
    ensures
        required.len() > 0,
        forall|i: int| 0 <= i < required.len() ==> layers_allow(layers, #[trigger] required[i]),
{
    none_missing(required, layers, 0);
}

proof fn none_missing(required: Seq<CapabilityView>, layers: Seq<Seq<CapabilityView>>, from: int)
    requires
        0 <= from,
        first_missing(required, layers, from) is None,
    ensures
        forall|i: int| from <= i < required.len() ==> layers_allow(layers, #[trigger] required[i]),
    decreases required.len() - from,
{
    if from < required.len() {
        none_missing(required, layers, from + 1);
    }
}

/// Some capability of `layer` has the name of `c`, and its scope covers that of
/// `c`.
pub open spec fn granted_by(layer: Seq<CapabilityView>, c: CapabilityView) -> bool {
    exists|k: int|
        0 <= k < layer.len() && (#[trigger] layer[k]).name == c.name && layer[k].scope.covers(
            c.scope,
        )
}

/// Every decision says what it means. An action that is allowed has a
/// capability, each of its capabilities is granted in every layer, of which
/// there is at least one, and none of them has a name whose use needs an
/// approval. One that needs an approval is granted as much, and some capability
/// of it has such a name. One that lacks a capability lacks it in some layer,
/// and the capability that is named is the first that is lacking.
pub proof fn decisions_mean_what_they_say(
    approval_required: Seq<CapabilityName>,
    required: Seq<CapabilityView>,
    layers: Seq<Seq<CapabilityView>>,
)
    ensures
        match decide(approval_required, required, layers) {
            DecisionView::Allow => {
                &&& required.len() > 0 && layers.len() > 0
                &&& forall|i: int|
                    0 <= i < required.len() ==> !approval_required.contains(
                        (#[trigger] required[i]).name,
                    )
                &&& forall|i: int, l: int|
                    0 <= i < required.len() && 0 <= l < layers.len() ==> granted_by(
                        #[trigger] layers[l],
                        #[trigger] required[i],
                    )
            },
            DecisionView::RequireApproval => {
                &&& required.len() > 0 && layers.len() > 0
                &&& exists|i: int|
                    0 <= i < required.len() && approval_required.contains(
                        (#[trigger] required[i]).name,
                    )
                &&& forall|i: int, l: int|
                    0 <= i < required.len() && 0 <= l < layers.len() ==> granted_by(
                        #[trigger] layers[l],
                        #[trigger] required[i],
                    )
            },
            DecisionView::Deny(DenialView::NoCapabilitiesDeclared) => required.len() == 0,
            DecisionView::Deny(DenialView::MissingCapability(c)) => exists|i: int|
                {
                    &&& 0 <= i < required.len() && #[trigger] required[i] == c
                    &&& layers.len() == 0 || exists|l: int|
                        0 <= l < layers.len() && !granted_by(#[trigger] layers[l], c)
                    &&& forall|j: int, l: int|
                        0 <= j < i && 0 <= l < layers.len() ==> granted_by(
                            #[trigger] layers[l],
                            #[trigger] required[j],
                        )
                },
        },
{
    if required.len() > 0 {
        match first_missing(required, layers, 0) {
            Some(c) => {
                let i = missing_position(required, layers, 0);
                assert forall|j: int, l: int|
                    0 <= j < i && 0 <= l < layers.len() implies granted_by(
                    #[trigger] layers[l],
                    #[trigger] required[j],
                ) by {
                    assert(layers_allow(layers, required[j]));
                    grants_are_found(layers, required[j], l);
                }
                if layers.len() > 0 {
                    let l = choose|l: int|
                        0 <= l < layers.len() && !set_allows(#[trigger] layers[l], c);
                    grants_are_found(layers, c, l);
                    assert(!granted_by(layers[l], c));
                }
                assert(required[i] == c);
            },
            None => {
                none_missing(required, layers, 0);
                assert(layers_allow(layers, required[0]));
                assert forall|i: int, l: int|
                    0 <= i < required.len() && 0 <= l < layers.len() implies granted_by(
                    #[trigger] layers[l],
                    #[trigger] required[i],
                ) by {
                    assert(layers_allow(layers, required[i]));
                    grants_are_found(layers, required[i], l);
                }
            },
        }
    }
}

/// What is granted everywhere and needs no approval is allowed, and what needs
/// one is never allowed without: whoever adds a name to those that need an
/// approval turns no denial into a permission, nor a permission into a denial.
pub proof fn approvals_only_restrict(
    approval_required: Seq<CapabilityName>,
    name: CapabilityName,
    required: Seq<CapabilityView>,
    layers: Seq<Seq<CapabilityView>>,
)
    ensures
        ({
            let before = decide(approval_required, required, layers);
            let after = decide(approval_required.push(name), required, layers);
            &&& before is Deny ==> after == before
            &&& before is RequireApproval ==> after is RequireApproval
            &&& before is Allow ==> after == (if exists|i: int|
                0 <= i < required.len() && (#[trigger] required[i]).name == name {
                DecisionView::RequireApproval
            } else {
                DecisionView::Allow
            })
        }),
{
    let more = approval_required.push(name);
    decisions_mean_what_they_say(approval_required, required, layers);
    decisions_mean_what_they_say(more, required, layers);
    assert forall|n: CapabilityName| #[trigger] more.contains(n) <==> (approval_required.contains(n)
        || n == name) by {
        if approval_required.contains(n) {
            let k = choose|k: int| 0 <= k < approval_required.len() && approval_required[k] == n;
            assert(more[k] == n);
        }
        if n == name {
            assert(more[approval_required.len() as int] == n);
        }
        if more.contains(n) && n != name {
            let k = choose|k: int| 0 <= k < more.len() && more[k] == n;
            assert(approval_required[k] == n);
        }
    }
}

proof fn missing_position(
    required: Seq<CapabilityView>,
    layers: Seq<Seq<CapabilityView>>,
    from: int,
) -> (i: int)
    requires
        0 <= from,
        first_missing(required, layers, from) is Some,
    ensures
        from <= i < required.len(),
        first_missing(required, layers, from) == Some(required[i]),
        !layers_allow(layers, required[i]),
        forall|j: int| from <= j < i ==> layers_allow(layers, #[trigger] required[j]),
    decreases required.len() - from,
{
    if layers_allow(layers, required[from]) {
        missing_position(required, layers, from + 1)
    } else {
        from
    }
}

proof fn grants_are_found(layers: Seq<Seq<CapabilityView>>, c: CapabilityView, l: int)
    requires
        0 <= l < layers.len(),
    ensures
        set_allows(layers[l], c) <==> granted_by(layers[l], c),
{
    let layer = layers[l];
    if set_allows(layer, c) {
        let k = choose|k: int| 0 <= k < layer.len() && (#[trigger] layer[k]).allows(c);
        assert(layer[k].name == c.name);
    }
    if granted_by(layer, c) {
        let k = choose|k: int|
            0 <= k < layer.len() && (#[trigger] layer[k]).name == c.name && layer[k].scope.covers(
                c.scope,
            );
        assert(layer[k].allows(c));
    }
}

/// Without any layer of capabilities every action is denied.
pub proof fn nothing_runs_without_layers(
    approval_required: Seq<CapabilityName>,
    required: Seq<CapabilityView>,
)
    ensures
        decide(approval_required, required, Seq::<Seq<CapabilityView>>::empty()) is Deny,
{
}

} // verus!
