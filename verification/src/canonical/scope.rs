//! The resources that a lease covers, and the proof that one set of resources
//! is within another.

use super::destination::{DestinationView, NetworkDestination};
use super::path::{grant_views, PathGrant, PathGrantView};
use super::resource::{
    check_tool, effects_subset, effects_within, exact_pin_of, tool_name, tool_subset, AccountRef,
    AccountView, EffectClass, ToolName,
};
use super::{CanonicalError, CanonicalErrorView};
use crate::digest::{sha256_hex_str, text_digest};
use crate::json::{canonical, canonical_iff_integral, integral, Json, JsonView};
use crate::lists::mapping_keeps_items;
use crate::ordered::{all_within, lookup, lookup_stands, OrderedTable, TextSet};
use crate::sorting::{
    dedup_strings, sort_strings, sort_texts, sorting_ignores_order, text_le, text_order_is_total,
    text_set, text_set_members,
};
use crate::text::{
    concat, is_digest, join, sorted_texts, sorted_texts_unique, surround, texts,
};
use crate::version::{requirement_matches, VersionReq};
use vstd::prelude::*;

verus! {

/// The resource scope of a lease. Every dimension is a set of typed grants.
#[derive(Debug, PartialEq, Eq)]
pub struct ResourceScope {
    /// The allowed version requirement of each tool.
    pub tools: OrderedTable<VersionReq>,
    pub paths: Vec<PathGrant>,
    pub destinations: Vec<NetworkDestination>,
    pub secrets: TextSet,
    /// Accounts in ascending order.
    pub accounts: Vec<AccountRef>,
    /// The allowed classes of each provider.
    pub models: OrderedTable<TextSet>,
    pub effects: Vec<EffectClass>,
}

/// The model of a `ResourceScope`.
pub struct ScopeView {
    pub tools: Seq<(Seq<char>, Seq<char>)>,
    pub paths: Seq<PathGrantView>,
    pub destinations: Seq<DestinationView>,
    pub secrets: Seq<Seq<char>>,
    pub accounts: Seq<AccountView>,
    pub models: Seq<(Seq<char>, Seq<Seq<char>>)>,
    pub effects: Seq<EffectClass>,
}

/// The views of a list of destinations.
pub open spec fn destination_views(v: Seq<NetworkDestination>) -> Seq<DestinationView> {
    v.map_values(|d: NetworkDestination| d@)
}

/// The views of a list of accounts.
pub open spec fn account_views(v: Seq<AccountRef>) -> Seq<AccountView> {
    v.map_values(|a: AccountRef| a@)
}

impl View for ResourceScope {
    type V = ScopeView;

    open spec fn view(&self) -> ScopeView {
        ScopeView {
            tools: self.tools@,
            paths: grant_views(self.paths@),
            destinations: destination_views(self.destinations@),
            secrets: self.secrets@,
            accounts: account_views(self.accounts@),
            models: self.models@,
            effects: self.effects@,
        }
    }
}

/// Why one scope is not within another. Each variant names the offending
/// resource.
#[derive(Clone, Debug, PartialEq, Eq)]
pub enum ScopeSubsetError {
    Canonical(CanonicalError),
    ToolNotGranted(String),
    PathNotCovered(String),
    DestinationNotCovered(String),
    SecretNotGranted(String),
    AccountNotGranted(String),
    ModelClassNotGranted(String),
    EffectNotGranted,
}

/// The model of a `ScopeSubsetError`.
pub enum ScopeErrorView {
    Canonical(CanonicalErrorView),
    ToolNotGranted(Seq<char>),
    PathNotCovered(Seq<char>),
    DestinationNotCovered(Seq<char>),
    SecretNotGranted(Seq<char>),
    AccountNotGranted(Seq<char>),
    ModelClassNotGranted(Seq<char>),
    EffectNotGranted,
}

impl View for ScopeSubsetError {
    type V = ScopeErrorView;

    open spec fn view(&self) -> ScopeErrorView {
        match *self {
            ScopeSubsetError::Canonical(e) => ScopeErrorView::Canonical(e@),
            ScopeSubsetError::ToolNotGranted(s) => ScopeErrorView::ToolNotGranted(s@),
            ScopeSubsetError::PathNotCovered(s) => ScopeErrorView::PathNotCovered(s@),
            ScopeSubsetError::DestinationNotCovered(s) => ScopeErrorView::DestinationNotCovered(s@),
            ScopeSubsetError::SecretNotGranted(s) => ScopeErrorView::SecretNotGranted(s@),
            ScopeSubsetError::AccountNotGranted(s) => ScopeErrorView::AccountNotGranted(s@),
            ScopeSubsetError::ModelClassNotGranted(s) => ScopeErrorView::ModelClassNotGranted(s@),
            ScopeSubsetError::EffectNotGranted => ScopeErrorView::EffectNotGranted,
        }
    }
}

impl ScopeErrorView {
    /// The message of the error.
    pub open spec fn message(self) -> Seq<char> {
        match self {
            ScopeErrorView::Canonical(e) => "canonicalization failed: "@ + e.message(),
            ScopeErrorView::ToolNotGranted(a) => "tool not granted by parent: "@ + a,
            ScopeErrorView::PathNotCovered(a) => "path not covered by any parent grant: "@ + a,
            ScopeErrorView::DestinationNotCovered(a) => "destination not covered by any parent grant: "@ + a,
            ScopeErrorView::SecretNotGranted(a) => "secret not granted by parent: "@ + a,
            ScopeErrorView::AccountNotGranted(a) => "account not granted by parent: "@ + a,
            ScopeErrorView::ModelClassNotGranted(a) => "model class not granted by parent: "@ + a,
            ScopeErrorView::EffectNotGranted => "effect class not granted by parent"@,
        }
    }
}

impl ScopeSubsetError {
    /// The message of the error.
    pub fn message(&self) -> (r: String)
        ensures
            r@ == self@.message(),
    {
        match self {
            ScopeSubsetError::Canonical(e) => {
                let mut out = "canonicalization failed: ".to_owned();
                out.append(e.message().as_str());
                out
            },
            ScopeSubsetError::ToolNotGranted(a) => {
                let mut out = "tool not granted by parent: ".to_owned();
                out.append(a.as_str());
                out
            },
            ScopeSubsetError::PathNotCovered(a) => {
                let mut out = "path not covered by any parent grant: ".to_owned();
                out.append(a.as_str());
                out
            },
            ScopeSubsetError::DestinationNotCovered(a) => {
                let mut out = "destination not covered by any parent grant: ".to_owned();
                out.append(a.as_str());
                out
            },
            ScopeSubsetError::SecretNotGranted(a) => {
                let mut out = "secret not granted by parent: ".to_owned();
                out.append(a.as_str());
                out
            },
            ScopeSubsetError::AccountNotGranted(a) => {
                let mut out = "account not granted by parent: ".to_owned();
                out.append(a.as_str());
                out
            },
            ScopeSubsetError::ModelClassNotGranted(a) => {
                let mut out = "model class not granted by parent: ".to_owned();
                out.append(a.as_str());
                out
            },
            ScopeSubsetError::EffectNotGranted => "effect class not granted by parent".to_owned(),
        }
    }
}

/// The model of the outcome of a scope check.
pub open spec fn scope_outcome(r: Result<(), ScopeSubsetError>) -> Result<(), ScopeErrorView> {
    match r {
        Ok(_) => Ok(()),
        Err(e) => Err(e@),
    }
}

/// Whether one tool grant of a child is covered: the parent names the tool,
/// the name is canonical, and the child pins a version that the parent allows.
pub open spec fn tool_covered(
    tool: (Seq<char>, Seq<char>),
    parent: Seq<(Seq<char>, Seq<char>)>,
) -> Result<(), ScopeErrorView> {
    match lookup(parent, tool.0) {
        None => Err(ScopeErrorView::ToolNotGranted(tool.0)),
        Some(req) => match tool_name(tool.0) {
            Err(e) => Err(ScopeErrorView::Canonical(e)),
            Ok(name) => match tool_subset(name, tool.1, req) {
                Err(e) => Err(ScopeErrorView::Canonical(e)),
                Ok(_) => Ok(()),
            },
        },
    }
}

/// The first tool grant from position `i` on that is not covered.
pub open spec fn tools_covered(
    child: Seq<(Seq<char>, Seq<char>)>,
    parent: Seq<(Seq<char>, Seq<char>)>,
    i: int,
) -> Result<(), ScopeErrorView>
    decreases child.len() - i,
{
    if i < 0 || i >= child.len() {
        Ok(())
    } else {
        match tool_covered(child[i], parent) {
            Err(e) => Err(e),
            Ok(_) => tools_covered(child, parent, i + 1),
        }
    }
}

/// Some grant of `parents` covers `child`.
pub open spec fn path_covered(child: PathGrantView, parents: Seq<PathGrantView>) -> bool {
    exists|i: int| 0 <= i < parents.len() && child.narrows(#[trigger] parents[i])
}

/// The first path grant from position `i` on that is not covered.
pub open spec fn paths_covered(
    child: Seq<PathGrantView>,
    parent: Seq<PathGrantView>,
    i: int,
) -> Result<(), ScopeErrorView>
    decreases child.len() - i,
{
    if i < 0 || i >= child.len() {
        Ok(())
    } else if !path_covered(child[i], parent) {
        Err(ScopeErrorView::PathNotCovered(child[i].root.form()))
    } else {
        paths_covered(child, parent, i + 1)
    }
}

/// Some destination of `parents` covers `child`.
pub open spec fn destination_covered(
    child: DestinationView,
    parents: Seq<DestinationView>,
) -> bool {
    exists|i: int| 0 <= i < parents.len() && child.subset(#[trigger] parents[i]) is Ok
}

/// The first destination from position `i` on that is not covered.
pub open spec fn destinations_covered(
    child: Seq<DestinationView>,
    parent: Seq<DestinationView>,
    i: int,
) -> Result<(), ScopeErrorView>
    decreases child.len() - i,
{
    if i < 0 || i >= child.len() {
        Ok(())
    } else if !destination_covered(child[i], parent) {
        Err(ScopeErrorView::DestinationNotCovered(child[i].form()))
    } else {
        destinations_covered(child, parent, i + 1)
    }
}

/// The first secret from position `i` on that the parent does not hold.
pub open spec fn secrets_covered(
    child: Seq<Seq<char>>,
    parent: Seq<Seq<char>>,
    i: int,
) -> Result<(), ScopeErrorView>
    decreases child.len() - i,
{
    if i < 0 || i >= child.len() {
        Ok(())
    } else if !parent.contains(child[i]) {
        Err(ScopeErrorView::SecretNotGranted(child[i]))
    } else {
        secrets_covered(child, parent, i + 1)
    }
}

/// The first account from position `i` on that the parent does not hold.
pub open spec fn accounts_covered(
    child: Seq<AccountView>,
    parent: Seq<AccountView>,
    i: int,
) -> Result<(), ScopeErrorView>
    decreases child.len() - i,
{
    if i < 0 || i >= child.len() {
        Ok(())
    } else if !parent.contains(child[i]) {
        Err(ScopeErrorView::AccountNotGranted(child[i].form()))
    } else {
        accounts_covered(child, parent, i + 1)
    }
}

/// Whether the classes of one provider are among the parent's.
pub open spec fn model_covered(
    model: (Seq<char>, Seq<Seq<char>>),
    parent: Seq<(Seq<char>, Seq<Seq<char>>)>,
) -> bool {
    match lookup(parent, model.0) {
        None => false,
        Some(classes) => all_within(model.1, classes),
    }
}

/// The first provider from position `i` on whose classes are not covered.
pub open spec fn models_covered(
    child: Seq<(Seq<char>, Seq<Seq<char>>)>,
    parent: Seq<(Seq<char>, Seq<Seq<char>>)>,
    i: int,
) -> Result<(), ScopeErrorView>
    decreases child.len() - i,
{
    if i < 0 || i >= child.len() {
        Ok(())
    } else if !model_covered(child[i], parent) {
        Err(ScopeErrorView::ModelClassNotGranted(child[i].0 + ":"@ + join(child[i].1, ',')))
    } else {
        models_covered(child, parent, i + 1)
    }
}

/// The accounts ascend, each once.
pub open spec fn accounts_ascend(a: Seq<AccountView>) -> bool {
    forall|i: int, j: int| #![trigger a[i], a[j]] 0 <= i < j < a.len() ==> a[i].lt(a[j])
}

impl ScopeView {
    /// Keys and sets ascend, and the hosts are well formed.
    pub open spec fn wf(self) -> bool {
        &&& crate::ordered::ascending_keys(self.tools)
        &&& crate::ordered::ascending_keys(self.models)
        &&& sorted_texts(self.secrets)
        &&& accounts_ascend(self.accounts)
        &&& forall|i: int|
            0 <= i < self.destinations.len() ==> (#[trigger] self.destinations[i]).wf()
    }

    /// Whether this scope is within `parent`. The dimensions are compared in
    /// the order tools, paths, destinations, secrets, accounts, models,
    /// effects, and the first resource that is not covered is the error.
    pub open spec fn subset(self, parent: ScopeView) -> Result<(), ScopeErrorView> {
        if tools_covered(self.tools, parent.tools, 0) is Err {
            tools_covered(self.tools, parent.tools, 0)
        } else if paths_covered(self.paths, parent.paths, 0) is Err {
            paths_covered(self.paths, parent.paths, 0)
        } else if destinations_covered(self.destinations, parent.destinations, 0) is Err {
            destinations_covered(self.destinations, parent.destinations, 0)
        } else if secrets_covered(self.secrets, parent.secrets, 0) is Err {
            secrets_covered(self.secrets, parent.secrets, 0)
        } else if accounts_covered(self.accounts, parent.accounts, 0) is Err {
            accounts_covered(self.accounts, parent.accounts, 0)
        } else if models_covered(self.models, parent.models, 0) is Err {
            models_covered(self.models, parent.models, 0)
        } else if !effects_within(self.effects, parent.effects) {
            Err(ScopeErrorView::EffectNotGranted)
        } else {
            Ok(())
        }
    }
}

fn check_tools(child: &OrderedTable<VersionReq>, parent: &OrderedTable<VersionReq>) -> (r: Result<
    (),
    ScopeSubsetError,
>)
    requires
        parent.wf(),
    ensures
        scope_outcome(r) == tools_covered(child@, parent@, 0),
{
    let mut i: usize = 0;
    while i < child.len()
        invariant
            i <= child@.len(),
            parent.wf(),
            tools_covered(child@, parent@, 0) == tools_covered(child@, parent@, i as int),
        decreases child@.len() - i,
    {
        match parent.get(child.key_at(i)) {
            None => {
                return Err(ScopeSubsetError::ToolNotGranted(child.key_at(i).to_owned()));
            },
            Some(req) => {
                match ToolName::parse(child.key_at(i)) {
                    Err(e) => {
                        return Err(ScopeSubsetError::Canonical(e));
                    },
                    Ok(name) => {
                        if let Err(e) = check_tool(name.as_str(), child.value_at(i), req) {
                            return Err(ScopeSubsetError::Canonical(e));
                        }
                    },
                }
            },
        }
        i += 1;
    }
    Ok(())
}

fn check_paths(child: &Vec<PathGrant>, parent: &Vec<PathGrant>) -> (r: Result<(), ScopeSubsetError>)
    ensures
        scope_outcome(r) == paths_covered(grant_views(child@), grant_views(parent@), 0),
{
    let ghost c = grant_views(child@);
    let ghost p = grant_views(parent@);
    let mut i: usize = 0;
    while i < child.len()
        invariant
            i <= child@.len(),
            c == grant_views(child@),
            p == grant_views(parent@),
            paths_covered(c, p, 0) == paths_covered(c, p, i as int),
        decreases child@.len() - i,
    {
        match PathGrant::covering(&child[i], parent) {
            Err(_) => {
                proof {
                    if path_covered(c[i as int], p) {
                        let k = choose|k: int|
                            0 <= k < p.len() && c[i as int].narrows(#[trigger] p[k]);
                        assert(!child@[i as int]@.narrows(parent@[k]@));
                    }
                }
                return Err(ScopeSubsetError::PathNotCovered(child[i].root.canonical_form()));
            },
            Ok(_) => {
                proof {
                    let k = choose|k: int|
                        0 <= k < parent@.len() && child@[i as int]@.narrows(
                            (#[trigger] parent@[k])@,
                        );
                    assert(c[i as int].narrows(p[k]));
                }
            },
        }
        i += 1;
    }
    Ok(())
}

fn destination_is_covered(child: &NetworkDestination, parent: &Vec<NetworkDestination>) -> (r: bool)
    requires
        forall|i: int|
            0 <= i < parent@.len() ==> (#[trigger] destination_views(parent@)[i]).host.wf(),
    ensures
        r == destination_covered(child@, destination_views(parent@)),
{
    let ghost p = destination_views(parent@);
    let mut i: usize = 0;
    while i < parent.len()
        invariant
            i <= parent@.len(),
            p == destination_views(parent@),
            forall|i: int| 0 <= i < p.len() ==> (#[trigger] p[i]).host.wf(),
            forall|k: int| 0 <= k < i ==> child@.subset(#[trigger] p[k]) is Err,
        decreases parent@.len() - i,
    {
        proof {
            assert(p[i as int] == parent@[i as int]@);
        }
        if child.is_subset_of(&parent[i]).is_ok() {
            proof {
                assert(child@.subset(p[i as int]) is Ok);
            }
            return true;
        }
        i += 1;
    }
    false
}

fn check_destinations(child: &Vec<NetworkDestination>, parent: &Vec<NetworkDestination>) -> (r:
    Result<(), ScopeSubsetError>)
    requires
        forall|i: int|
            0 <= i < child@.len() ==> (#[trigger] destination_views(child@)[i]).host.wf(),
        forall|i: int|
            0 <= i < parent@.len() ==> (#[trigger] destination_views(parent@)[i]).host.wf(),
    ensures
        scope_outcome(r) == destinations_covered(
            destination_views(child@),
            destination_views(parent@),
            0,
        ),
{
    let ghost c = destination_views(child@);
    let ghost p = destination_views(parent@);
    let mut i: usize = 0;
    while i < child.len()
        invariant
            i <= child@.len(),
            c == destination_views(child@),
            p == destination_views(parent@),
            forall|i: int| 0 <= i < p.len() ==> (#[trigger] p[i]).host.wf(),
            forall|i: int| 0 <= i < c.len() ==> (#[trigger] c[i]).host.wf(),
            destinations_covered(c, p, 0) == destinations_covered(c, p, i as int),
        decreases child@.len() - i,
    {
        proof {
            assert(c[i as int] == child@[i as int]@);
        }
        if !destination_is_covered(&child[i], parent) {
            return Err(ScopeSubsetError::DestinationNotCovered(child[i].canonical_form()));
        }
        i += 1;
    }
    Ok(())
}

fn check_secrets(child: &TextSet, parent: &TextSet) -> (r: Result<(), ScopeSubsetError>)
    ensures
        scope_outcome(r) == secrets_covered(child@, parent@, 0),
{
    let mut i: usize = 0;
    while i < child.len()
        invariant
            i <= child@.len(),
            secrets_covered(child@, parent@, 0) == secrets_covered(child@, parent@, i as int),
        decreases child@.len() - i,
    {
        if !parent.contains(child.at(i)) {
            return Err(ScopeSubsetError::SecretNotGranted(child.at(i).to_owned()));
        }
        i += 1;
    }
    Ok(())
}

fn has_account(list: &Vec<AccountRef>, a: &AccountRef) -> (r: bool)
    ensures
        r == account_views(list@).contains(a@),
{
    let ghost l = account_views(list@);
    let mut i: usize = 0;
    while i < list.len()
        invariant
            i <= list@.len(),
            l == account_views(list@),
            forall|k: int| 0 <= k < i ==> #[trigger] l[k] != a@,
        decreases list@.len() - i,
    {
        if list[i].same(a) {
            proof {
                assert(l[i as int] == a@);
            }
            return true;
        }
        i += 1;
    }
    false
}

fn check_accounts(child: &Vec<AccountRef>, parent: &Vec<AccountRef>) -> (r: Result<
    (),
    ScopeSubsetError,
>)
    ensures
        scope_outcome(r) == accounts_covered(account_views(child@), account_views(parent@), 0),
{
    let ghost c = account_views(child@);
    let ghost p = account_views(parent@);
    let mut i: usize = 0;
    while i < child.len()
        invariant
            i <= child@.len(),
            c == account_views(child@),
            p == account_views(parent@),
            accounts_covered(c, p, 0) == accounts_covered(c, p, i as int),
        decreases child@.len() - i,
    {
        if !has_account(parent, &child[i]) {
            return Err(ScopeSubsetError::AccountNotGranted(child[i].canonical_form()));
        }
        i += 1;
    }
    Ok(())
}

fn check_models(child: &OrderedTable<TextSet>, parent: &OrderedTable<TextSet>) -> (r: Result<
    (),
    ScopeSubsetError,
>)
    requires
        parent.wf(),
    ensures
        scope_outcome(r) == models_covered(child@, parent@, 0),
{
    let mut i: usize = 0;
    while i < child.len()
        invariant
            i <= child@.len(),
            parent.wf(),
            models_covered(child@, parent@, 0) == models_covered(child@, parent@, i as int),
        decreases child@.len() - i,
    {
        let covered = match parent.get(child.key_at(i)) {
            None => false,
            Some(classes) => child.value_at(i).is_subset(classes),
        };
        if !covered {
            return Err(
                ScopeSubsetError::ModelClassNotGranted(
                    surround(child.key_at(i), ":", child.value_at(i).join(',').as_str()),
                ),
            );
        }
        i += 1;
    }
    Ok(())
}

impl ResourceScope {
    /// A scope without any grant.
    pub fn empty() -> (r: ResourceScope)
        ensures
            r@.wf(),
            r@ == (ScopeView {
                tools: Seq::empty(),
                paths: Seq::empty(),
                destinations: Seq::empty(),
                secrets: Seq::empty(),
                accounts: Seq::empty(),
                models: Seq::empty(),
                effects: Seq::empty(),
            }),
    {
        let r = ResourceScope {
            tools: OrderedTable::new(),
            paths: Vec::new(),
            destinations: Vec::new(),
            secrets: TextSet::new(),
            accounts: Vec::new(),
            models: OrderedTable::new(),
            effects: Vec::new(),
        };
        proof {
            assert(r@.paths =~= Seq::<PathGrantView>::empty());
            assert(r@.destinations =~= Seq::<DestinationView>::empty());
            assert(r@.accounts =~= Seq::<AccountView>::empty());
            assert(r@.effects =~= Seq::<EffectClass>::empty());
        }
        r
    }

    /// Whether this scope is within `parent`.
    pub fn is_subset_of(&self, parent: &ResourceScope) -> (r: Result<(), ScopeSubsetError>)
        requires
            self@.wf(),
            parent@.wf(),
        ensures
            scope_outcome(r) == self@.subset(parent@),
    {
        if let Err(e) = check_tools(&self.tools, &parent.tools) {
            return Err(e);
        }
        if let Err(e) = check_paths(&self.paths, &parent.paths) {
            return Err(e);
        }
        if let Err(e) = check_destinations(&self.destinations, &parent.destinations) {
            return Err(e);
        }
        if let Err(e) = check_secrets(&self.secrets, &parent.secrets) {
            return Err(e);
        }
        if let Err(e) = check_accounts(&self.accounts, &parent.accounts) {
            return Err(e);
        }
        if let Err(e) = check_models(&self.models, &parent.models) {
            return Err(e);
        }
        if !effects_subset(&self.effects, &parent.effects) {
            return Err(ScopeSubsetError::EffectNotGranted);
        }
        Ok(())
    }
}

impl Default for ResourceScope {
    fn default() -> (r: ResourceScope)
        ensures
            r@.wf(),
            r@ == (ScopeView {
                tools: Seq::empty(),
                paths: Seq::empty(),
                destinations: Seq::empty(),
                secrets: Seq::empty(),
                accounts: Seq::empty(),
                models: Seq::empty(),
                effects: Seq::empty(),
            }),
    {
        ResourceScope::empty()
    }
}

/// The typed string of each tool grant.
pub open spec fn tool_items(tools: Seq<(Seq<char>, Seq<char>)>) -> Seq<Seq<char>> {
    tools.map_values(|t: (Seq<char>, Seq<char>)| "tool:"@ + t.0 + "@"@ + t.1)
}

/// The text of a flag.
pub open spec fn flag_text(b: bool) -> Seq<char> {
    if b {
        "true"@
    } else {
        "false"@
    }
}

/// The typed string of each path grant.
pub open spec fn path_items(paths: Seq<PathGrantView>) -> Seq<Seq<char>> {
    paths.map_values(
        |p: PathGrantView|
            "path:"@ + p.root.form() + ":"@ + flag_text(p.rights.read) + ":"@ + flag_text(
                p.rights.write,
            ),
    )
}

/// The typed string of each destination.
pub open spec fn destination_items(d: Seq<DestinationView>) -> Seq<Seq<char>> {
    d.map_values(|x: DestinationView| x.form())
}

/// The typed string of each secret.
pub open spec fn secret_items(s: Seq<Seq<char>>) -> Seq<Seq<char>> {
    s.map_values(|x: Seq<char>| "secret:"@ + x)
}

/// The typed string of each account.
pub open spec fn account_items(a: Seq<AccountView>) -> Seq<Seq<char>> {
    a.map_values(|x: AccountView| x.form())
}

/// The typed string of each provider with its classes.
pub open spec fn model_items(m: Seq<(Seq<char>, Seq<Seq<char>>)>) -> Seq<Seq<char>> {
    m.map_values(|x: (Seq<char>, Seq<Seq<char>>)| "model:"@ + x.0 + ":"@ + join(x.1, ','))
}

/// The labels of effects.
pub open spec fn effect_labels(e: Seq<EffectClass>) -> Seq<Seq<char>> {
    e.map_values(|x: EffectClass| x.label())
}

/// The typed string of each effect, in ascending order and without
/// repetitions.
pub open spec fn effect_items(e: Seq<EffectClass>) -> Seq<Seq<char>> {
    text_set(effect_labels(e)).map_values(|x: Seq<char>| "effect:"@ + x)
}

/// A list of strings as a JSON array.
pub open spec fn json_texts(t: Seq<Seq<char>>) -> JsonView {
    JsonView::Array(t.map_values(|x: Seq<char>| JsonView::Str(x)))
}

impl ScopeView {
    /// The typed strings of the whole scope, in a fixed order.
    pub open spec fn items(self) -> Seq<Seq<char>> {
        tool_items(self.tools) + sort_texts(path_items(self.paths)) + sort_texts(
            destination_items(self.destinations),
        ) + secret_items(self.secrets) + account_items(self.accounts) + model_items(self.models)
            + effect_items(self.effects)
    }

    /// The digest of the scope: that of the canonical JSON array of its typed
    /// strings.
    pub open spec fn digest(self) -> Seq<char> {
        text_digest(canonical(json_texts(self.items()))->Ok_0)
    }
}

fn flag_str(b: bool) -> (r: &'static str)
    ensures
        r@ == flag_text(b),
{
    if b {
        "true"
    } else {
        "false"
    }
}

fn extend(out: &mut Vec<String>, more: Vec<String>)
    ensures
        texts(final(out)@) == texts(old(out)@) + texts(more@),
{
    let mut i: usize = 0;
    while i < more.len()
        invariant
            i <= more@.len(),
            texts(out@) == texts(old(out)@) + texts(more@).take(i as int),
        decreases more@.len() - i,
    {
        let ghost before = texts(out@);
        out.push(more[i].clone());
        proof {
            assert(texts(out@) =~= before.push(texts(more@)[i as int]));
            assert(texts(more@).take(i + 1) =~= texts(more@).take(i as int).push(
                texts(more@)[i as int],
            ));
        }
        i += 1;
    }
    proof {
        assert(texts(more@).take(i as int) =~= texts(more@));
    }
}

fn tool_strings(tools: &OrderedTable<VersionReq>) -> (r: Vec<String>)
    ensures
        texts(r@) == tool_items(tools@),
{
    let mut out: Vec<String> = Vec::new();
    let mut i: usize = 0;
    while i < tools.len()
        invariant
            i <= tools@.len(),
            out@.len() == i,
            forall|k: int| 0 <= k < i ==> (#[trigger] out@[k])@ == tool_items(tools@)[k],
        decreases tools@.len() - i,
    {
        let mut s = surround("tool:", tools.key_at(i), "@");
        s.append(tools.value_at(i).as_str());
        out.push(s);
        i += 1;
    }
    proof {
        assert(texts(out@) =~= tool_items(tools@));
    }
    out
}

fn path_strings(paths: &Vec<PathGrant>) -> (r: Vec<String>)
    ensures
        texts(r@) == path_items(grant_views(paths@)),
{
    let mut out: Vec<String> = Vec::new();
    let mut i: usize = 0;
    while i < paths.len()
        invariant
            i <= paths@.len(),
            out@.len() == i,
            forall|k: int|
                0 <= k < i ==> (#[trigger] out@[k])@ == path_items(grant_views(paths@))[k],
        decreases paths@.len() - i,
    {
        let mut s = surround("path:", paths[i].root.canonical_form().as_str(), ":");
        s.append(flag_str(paths[i].rights.read));
        s.append(":");
        s.append(flag_str(paths[i].rights.write));
        out.push(s);
        i += 1;
    }
    proof {
        assert(texts(out@) =~= path_items(grant_views(paths@)));
    }
    out
}

fn destination_strings(d: &Vec<NetworkDestination>) -> (r: Vec<String>)
    requires
        forall|i: int| 0 <= i < d@.len() ==> (#[trigger] destination_views(d@)[i]).host.wf(),
    ensures
        texts(r@) == destination_items(destination_views(d@)),
{
    let mut out: Vec<String> = Vec::new();
    let mut i: usize = 0;
    while i < d.len()
        invariant
            i <= d@.len(),
            out@.len() == i,
            forall|i: int| 0 <= i < d@.len() ==> (#[trigger] destination_views(d@)[i]).host.wf(),
            forall|k: int|
                0 <= k < i ==> (#[trigger] out@[k])@ == destination_items(destination_views(d@))[k],
        decreases d@.len() - i,
    {
        proof {
            assert(destination_views(d@)[i as int] == d@[i as int]@);
        }
        out.push(d[i].canonical_form());
        i += 1;
    }
    proof {
        assert(texts(out@) =~= destination_items(destination_views(d@)));
    }
    out
}

fn secret_strings(s: &TextSet) -> (r: Vec<String>)
    ensures
        texts(r@) == secret_items(s@),
{
    let mut out: Vec<String> = Vec::new();
    let mut i: usize = 0;
    while i < s.len()
        invariant
            i <= s@.len(),
            out@.len() == i,
            forall|k: int| 0 <= k < i ==> (#[trigger] out@[k])@ == secret_items(s@)[k],
        decreases s@.len() - i,
    {
        out.push(concat("secret:", s.at(i)));
        i += 1;
    }
    proof {
        assert(texts(out@) =~= secret_items(s@));
    }
    out
}

fn account_strings(a: &Vec<AccountRef>) -> (r: Vec<String>)
    ensures
        texts(r@) == account_items(account_views(a@)),
{
    let mut out: Vec<String> = Vec::new();
    let mut i: usize = 0;
    while i < a.len()
        invariant
            i <= a@.len(),
            out@.len() == i,
            forall|k: int|
                0 <= k < i ==> (#[trigger] out@[k])@ == account_items(account_views(a@))[k],
        decreases a@.len() - i,
    {
        out.push(a[i].canonical_form());
        i += 1;
    }
    proof {
        assert(texts(out@) =~= account_items(account_views(a@)));
    }
    out
}

fn model_strings(m: &OrderedTable<TextSet>) -> (r: Vec<String>)
    ensures
        texts(r@) == model_items(m@),
{
    let mut out: Vec<String> = Vec::new();
    let mut i: usize = 0;
    while i < m.len()
        invariant
            i <= m@.len(),
            out@.len() == i,
            forall|k: int| 0 <= k < i ==> (#[trigger] out@[k])@ == model_items(m@)[k],
        decreases m@.len() - i,
    {
        let mut s = surround("model:", m.key_at(i), ":");
        s.append(m.value_at(i).join(',').as_str());
        out.push(s);
        i += 1;
    }
    proof {
        assert(texts(out@) =~= model_items(m@));
    }
    out
}

fn effect_strings(e: &Vec<EffectClass>) -> (r: Vec<String>)
    ensures
        texts(r@) == effect_items(e@),
{
    let mut labels: Vec<String> = Vec::new();
    let mut i: usize = 0;
    while i < e.len()
        invariant
            i <= e@.len(),
            labels@.len() == i,
            forall|k: int| 0 <= k < i ==> (#[trigger] labels@[k])@ == effect_labels(e@)[k],
        decreases e@.len() - i,
    {
        labels.push(e[i].label_str().to_owned());
        i += 1;
    }
    proof {
        assert(texts(labels@) =~= effect_labels(e@));
    }
    let unique = dedup_strings(sort_strings(labels));
    let ghost u = text_set(effect_labels(e@));
    let mut out: Vec<String> = Vec::new();
    let mut i: usize = 0;
    while i < unique.len()
        invariant
            i <= unique@.len(),
            out@.len() == i,
            u == texts(unique@),
            forall|k: int| 0 <= k < i ==> (#[trigger] out@[k])@ == "effect:"@ + u[k],
        decreases unique@.len() - i,
    {
        out.push(concat("effect:", unique[i].as_str()));
        i += 1;
    }
    proof {
        assert(texts(out@) =~= u.map_values(|x: Seq<char>| "effect:"@ + x));
    }
    out
}

/// A list of strings as a JSON array.
pub fn strings_to_json(v: &Vec<String>) -> (r: Json)
    ensures
        r@ == json_texts(texts(v@)),
{
    let mut out: Vec<Json> = Vec::new();
    let mut i: usize = 0;
    while i < v.len()
        invariant
            i <= v@.len(),
            out@.len() == i,
            forall|k: int| 0 <= k < i ==> (#[trigger] out@[k])@ == JsonView::Str(v@[k]@),
        decreases v@.len() - i,
    {
        out.push(Json::Str(v[i].clone()));
        i += 1;
    }
    let r = Json::Array(out);
    proof {
        assert(r@->Array_0 =~= texts(v@).map_values(|x: Seq<char>| JsonView::Str(x))) by {
            assert forall|k: int| 0 <= k < v@.len() implies #[trigger] r@->Array_0[k]
                == JsonView::Str(v@[k]@) by {
                assert(out@[k]@ == JsonView::Str(v@[k]@));
            }
        }
    }
    r
}

impl ResourceScope {
    /// The digest of the whole scope.
    pub fn canonical_digest(&self) -> (r: Result<String, CanonicalError>)
        requires
            self@.wf(),
        ensures
            r matches Ok(d) && d@ == self@.digest() && is_digest(d@),
    {
        proof {
            assert forall|i: int| 0 <= i < self.destinations@.len() implies (
            #[trigger] destination_views(self.destinations@)[i]).host.wf() by {
                assert(self@.destinations[i].wf());
            }
        }
        let mut items = tool_strings(&self.tools);
        extend(&mut items, sort_strings(path_strings(&self.paths)));
        extend(&mut items, sort_strings(destination_strings(&self.destinations)));
        extend(&mut items, secret_strings(&self.secrets));
        extend(&mut items, account_strings(&self.accounts));
        extend(&mut items, model_strings(&self.models));
        extend(&mut items, effect_strings(&self.effects));
        let value = strings_to_json(&items);
        proof {
            let strings = value@->Array_0;
            assert forall|i: int| 0 <= i < strings.len() implies integral(#[trigger] strings[i]) by {
                assert(strings[i] is Str);
            }
            canonical_iff_integral(value@);
        }
        match value.canonical_text() {
            Ok(text) => Ok(sha256_hex_str(text.as_str())),
            Err(_) => Err(CanonicalError::TooLong),
        }
    }
}

proof fn paths_all(child: Seq<PathGrantView>, parent: Seq<PathGrantView>, i: int)
    requires
        0 <= i <= child.len(),
    ensures
        paths_covered(child, parent, i) is Ok <==> forall|k: int|
            i <= k < child.len() ==> path_covered(#[trigger] child[k], parent),
    decreases child.len() - i,
{
    if i < child.len() {
        paths_all(child, parent, i + 1);
        if forall|k: int| i <= k < child.len() ==> path_covered(#[trigger] child[k], parent) {
            assert(path_covered(child[i], parent));
        }
    }
}

proof fn destinations_all(child: Seq<DestinationView>, parent: Seq<DestinationView>, i: int)
    requires
        0 <= i <= child.len(),
    ensures
        destinations_covered(child, parent, i) is Ok <==> forall|k: int|
            i <= k < child.len() ==> destination_covered(#[trigger] child[k], parent),
    decreases child.len() - i,
{
    if i < child.len() {
        destinations_all(child, parent, i + 1);
        if forall|k: int| i <= k < child.len() ==> destination_covered(#[trigger] child[k], parent) {
            assert(destination_covered(child[i], parent));
        }
    }
}

proof fn secrets_all(child: Seq<Seq<char>>, parent: Seq<Seq<char>>, i: int)
    requires
        0 <= i <= child.len(),
    ensures
        secrets_covered(child, parent, i) is Ok <==> forall|k: int|
            i <= k < child.len() ==> parent.contains(#[trigger] child[k]),
    decreases child.len() - i,
{
    if i < child.len() {
        secrets_all(child, parent, i + 1);
        if forall|k: int| i <= k < child.len() ==> parent.contains(#[trigger] child[k]) {
            assert(parent.contains(child[i]));
        }
    }
}

proof fn accounts_all(child: Seq<AccountView>, parent: Seq<AccountView>, i: int)
    requires
        0 <= i <= child.len(),
    ensures
        accounts_covered(child, parent, i) is Ok <==> forall|k: int|
            i <= k < child.len() ==> parent.contains(#[trigger] child[k]),
    decreases child.len() - i,
{
    if i < child.len() {
        accounts_all(child, parent, i + 1);
        if forall|k: int| i <= k < child.len() ==> parent.contains(#[trigger] child[k]) {
            assert(parent.contains(child[i]));
        }
    }
}

proof fn models_all(child: Seq<(Seq<char>, Seq<Seq<char>>)>, parent: Seq<(Seq<char>, Seq<Seq<char>>)>, i: int)
    requires
        0 <= i <= child.len(),
    ensures
        models_covered(child, parent, i) is Ok <==> forall|k: int|
            i <= k < child.len() ==> model_covered(#[trigger] child[k], parent),
    decreases child.len() - i,
{
    if i < child.len() {
        models_all(child, parent, i + 1);
        if forall|k: int| i <= k < child.len() ==> model_covered(#[trigger] child[k], parent) {
            assert(model_covered(child[i], parent));
        }
    }
}

/// A scope that is within a scope within a third is within the third, as far
/// as the tools allow: a tool's pin has to be allowed by the third scope.
pub proof fn scope_subset_is_transitive(a: ScopeView, b: ScopeView, c: ScopeView)
    requires
        a.wf(),
        b.wf(),
        c.wf(),
        a.subset(b) is Ok,
        b.subset(c) is Ok,
        tools_covered(a.tools, c.tools, 0) is Ok,
    ensures
        a.subset(c) is Ok,
{
    paths_all(a.paths, b.paths, 0);
    paths_all(b.paths, c.paths, 0);
    paths_all(a.paths, c.paths, 0);
    assert forall|k: int| 0 <= k < a.paths.len() implies path_covered(
        #[trigger] a.paths[k],
        c.paths,
    ) by {
        let x = a.paths[k];
        assert(path_covered(x, b.paths));
        let i = choose|i: int| 0 <= i < b.paths.len() && x.narrows(#[trigger] b.paths[i]);
        assert(path_covered(b.paths[i], c.paths));
        let j = choose|j: int| 0 <= j < c.paths.len() && b.paths[i].narrows(#[trigger] c.paths[j]);
        super::path::narrowing_is_transitive(x, b.paths[i], c.paths[j]);
        assert(x.narrows(c.paths[j]));
    }
    destinations_all(a.destinations, b.destinations, 0);
    destinations_all(b.destinations, c.destinations, 0);
    destinations_all(a.destinations, c.destinations, 0);
    assert forall|k: int| 0 <= k < a.destinations.len() implies destination_covered(
        #[trigger] a.destinations[k],
        c.destinations,
    ) by {
        let x = a.destinations[k];
        assert(destination_covered(x, b.destinations));
        let i = choose|i: int|
            0 <= i < b.destinations.len() && x.subset(#[trigger] b.destinations[i]) is Ok;
        let y = b.destinations[i];
        assert(destination_covered(y, c.destinations));
        let j = choose|j: int|
            0 <= j < c.destinations.len() && y.subset(#[trigger] c.destinations[j]) is Ok;
        super::destination::destination_subset_transitive(x, y, c.destinations[j]);
        assert(x.subset(c.destinations[j]) is Ok);
    }
    secrets_all(a.secrets, b.secrets, 0);
    secrets_all(b.secrets, c.secrets, 0);
    secrets_all(a.secrets, c.secrets, 0);
    assert forall|k: int| 0 <= k < a.secrets.len() implies c.secrets.contains(
        #[trigger] a.secrets[k],
    ) by {
        assert(b.secrets.contains(a.secrets[k]));
        let i = choose|i: int| 0 <= i < b.secrets.len() && b.secrets[i] == a.secrets[k];
        assert(c.secrets.contains(b.secrets[i]));
    }
    accounts_all(a.accounts, b.accounts, 0);
    accounts_all(b.accounts, c.accounts, 0);
    accounts_all(a.accounts, c.accounts, 0);
    assert forall|k: int| 0 <= k < a.accounts.len() implies c.accounts.contains(
        #[trigger] a.accounts[k],
    ) by {
        assert(b.accounts.contains(a.accounts[k]));
        let i = choose|i: int| 0 <= i < b.accounts.len() && b.accounts[i] == a.accounts[k];
        assert(c.accounts.contains(b.accounts[i]));
    }
    models_all(a.models, b.models, 0);
    models_all(b.models, c.models, 0);
    models_all(a.models, c.models, 0);
    assert forall|k: int| 0 <= k < a.models.len() implies model_covered(
        #[trigger] a.models[k],
        c.models,
    ) by {
        let m = a.models[k];
        assert(model_covered(m, b.models));
        lookup_stands(b.models, m.0);
        let i = choose|i: int|
            0 <= i < b.models.len() && #[trigger] b.models[i] == (m.0, lookup(b.models, m.0)->0);
        assert(model_covered(b.models[i], c.models));
        let mid = b.models[i].1;
        let top = lookup(c.models, m.0)->0;
        assert forall|x: int| 0 <= x < m.1.len() implies top.contains(#[trigger] m.1[x]) by {
            assert(mid.contains(m.1[x]));
            let y = choose|y: int| 0 <= y < mid.len() && mid[y] == m.1[x];
            assert(top.contains(mid[y]));
        }
    }
    super::resource::effects_subset_is_transitive(a.effects, b.effects, c.effects);
}

proof fn labels_follow(a: Seq<EffectClass>, b: Seq<EffectClass>, t: Seq<char>)
    requires
        forall|e: EffectClass| a.contains(e) ==> #[trigger] b.contains(e),
        effect_labels(a).contains(t),
    ensures
        effect_labels(b).contains(t),
{
    let x = effect_labels(a);
    let i = choose|i: int| 0 <= i < x.len() && #[trigger] x[i] == t;
    assert(x.len() == a.len());
    assert(a.contains(a[i]));
    assert(b.contains(a[i]));
    let j = choose|j: int| 0 <= j < b.len() && #[trigger] b[j] == a[i];
    assert(effect_labels(b)[j] == t);
}

/// Lists of effects with the same members have the same typed strings.
proof fn effect_items_ignore_order(a: Seq<EffectClass>, b: Seq<EffectClass>)
    requires
        forall|e: EffectClass| #[trigger] a.contains(e) <==> b.contains(e),
    ensures
        effect_items(a) == effect_items(b),
{
    let x = effect_labels(a);
    let y = effect_labels(b);
    text_set_members(x);
    text_set_members(y);
    assert forall|t: Seq<char>| #[trigger] text_set(x).contains(t) <==> text_set(y).contains(t) by {
        if x.contains(t) {
            labels_follow(a, b, t);
        }
        if y.contains(t) {
            labels_follow(b, a, t);
        }
        assert(text_set(y).contains(t) <==> y.contains(t));
    }
    sorted_texts_unique(text_set(x), text_set(y));
}

/// The digest does not depend on the order in which paths, destinations and
/// effects are listed, nor on how often an effect is listed.
pub proof fn digest_ignores_order(a: ScopeView, b: ScopeView)
    requires
        a.tools == b.tools,
        a.secrets == b.secrets,
        a.accounts == b.accounts,
        a.models == b.models,
        a.paths.to_multiset() == b.paths.to_multiset(),
        a.destinations.to_multiset() == b.destinations.to_multiset(),
        forall|e: EffectClass| #[trigger] a.effects.contains(e) <==> b.effects.contains(e),
    ensures
        a.digest() == b.digest(),
{
    let path = |p: PathGrantView|
        "path:"@ + p.root.form() + ":"@ + flag_text(p.rights.read) + ":"@ + flag_text(
            p.rights.write,
        );
    mapping_keeps_items(a.paths, b.paths, path);
    assert(path_items(a.paths) =~= a.paths.map_values(path));
    assert(path_items(b.paths) =~= b.paths.map_values(path));
    let destination = |x: DestinationView| x.form();
    mapping_keeps_items(a.destinations, b.destinations, destination);
    assert(destination_items(a.destinations) =~= a.destinations.map_values(destination));
    assert(destination_items(b.destinations) =~= b.destinations.map_values(destination));
    sorting_ignores_order(path_items(a.paths), path_items(b.paths));
    sorting_ignores_order(destination_items(a.destinations), destination_items(b.destinations));
    effect_items_ignore_order(a.effects, b.effects);
}

fn copy_paths(v: &Vec<PathGrant>) -> (r: Vec<PathGrant>)
    ensures
        grant_views(r@) == grant_views(v@),
{
    let mut out: Vec<PathGrant> = Vec::new();
    let mut i: usize = 0;
    while i < v.len()
        invariant
            i <= v@.len(),
            out@.len() == i,
            forall|k: int| 0 <= k < i ==> (#[trigger] out@[k])@ == v@[k]@,
        decreases v@.len() - i,
    {
        out.push(v[i].clone());
        i += 1;
    }
    proof {
        assert(grant_views(out@) =~= grant_views(v@));
    }
    out
}

/// A copy of a list of destinations.
pub fn copy_destinations(v: &Vec<NetworkDestination>) -> (r: Vec<NetworkDestination>)
    ensures
        destination_views(r@) == destination_views(v@),
{
    let mut out: Vec<NetworkDestination> = Vec::new();
    let mut i: usize = 0;
    while i < v.len()
        invariant
            i <= v@.len(),
            out@.len() == i,
            forall|k: int| 0 <= k < i ==> (#[trigger] out@[k])@ == v@[k]@,
        decreases v@.len() - i,
    {
        out.push(v[i].clone());
        i += 1;
    }
    proof {
        assert(destination_views(out@) =~= destination_views(v@));
    }
    out
}

fn copy_accounts(v: &Vec<AccountRef>) -> (r: Vec<AccountRef>)
    ensures
        account_views(r@) == account_views(v@),
{
    let mut out: Vec<AccountRef> = Vec::new();
    let mut i: usize = 0;
    while i < v.len()
        invariant
            i <= v@.len(),
            out@.len() == i,
            forall|k: int| 0 <= k < i ==> (#[trigger] out@[k])@ == v@[k]@,
        decreases v@.len() - i,
    {
        out.push(v[i].clone());
        i += 1;
    }
    proof {
        assert(account_views(out@) =~= account_views(v@));
    }
    out
}

/// A copy of a list of effects.
pub fn copy_effects(v: &Vec<EffectClass>) -> (r: Vec<EffectClass>)
    ensures
        r@ == v@,
{
    let mut out: Vec<EffectClass> = Vec::new();
    let mut i: usize = 0;
    while i < v.len()
        invariant
            i <= v@.len(),
            out@ == v@.take(i as int),
        decreases v@.len() - i,
    {
        out.push(v[i]);
        proof {
            assert(v@.take(i + 1) =~= v@.take(i as int).push(v@[i as int]));
        }
        i += 1;
    }
    proof {
        assert(v@.take(i as int) =~= v@);
    }
    out
}

impl Clone for ResourceScope {
    fn clone(&self) -> (r: ResourceScope)
        ensures
            r@ == self@,
    {
        ResourceScope {
            tools: self.tools.clone(),
            paths: copy_paths(&self.paths),
            destinations: copy_destinations(&self.destinations),
            secrets: self.secrets.clone(),
            accounts: copy_accounts(&self.accounts),
            models: self.models.clone(),
            effects: copy_effects(&self.effects),
        }
    }
}

/// A scope is within another exactly if each of its items is covered there: each
/// tool is named, and the version that it pins is one that is allowed; each path
/// lies at or below a root of the same view that grants its rights; each
/// destination is covered by one; each secret and each account is listed; each
/// class of models is listed under its provider; and each effect is granted.
pub proof fn scopes_are_compared_item_by_item(child: ScopeView, parent: ScopeView)
    ensures
        child.subset(parent) is Ok <==> {
            &&& forall|k: int|
                0 <= k < child.tools.len() ==> {
                    &&& lookup(parent.tools, (#[trigger] child.tools[k]).0) is Some
                    &&& tool_name(child.tools[k].0) is Ok
                    &&& exact_pin_of(child.tools[k].1) is Some
                    &&& requirement_matches(
                        lookup(parent.tools, child.tools[k].0)->0,
                        exact_pin_of(child.tools[k].1)->0,
                    )
                }
            &&& forall|k: int|
                0 <= k < child.paths.len() ==> exists|j: int|
                    {
                        &&& 0 <= j < parent.paths.len()
                        &&& (#[trigger] parent.paths[j]).root.case_folded == (
                        #[trigger] child.paths[k]).root.case_folded
                        &&& parent.paths[j].root.components.is_prefix_of(
                            child.paths[k].root.components,
                        )
                        &&& child.paths[k].rights.read ==> parent.paths[j].rights.read
                        &&& child.paths[k].rights.write ==> parent.paths[j].rights.write
                    }
            &&& forall|k: int|
                0 <= k < child.destinations.len() ==> exists|j: int|
                    0 <= j < parent.destinations.len() && (#[trigger] child.destinations[k]).subset(
                        #[trigger] parent.destinations[j],
                    ) is Ok
            &&& forall|k: int|
                0 <= k < child.secrets.len() ==> parent.secrets.contains(#[trigger] child.secrets[k])
            &&& forall|k: int|
                0 <= k < child.accounts.len() ==> parent.accounts.contains(
                    #[trigger] child.accounts[k],
                )
            &&& forall|k: int|
                0 <= k < child.models.len() ==> (lookup(
                    parent.models,
                    (#[trigger] child.models[k]).0,
                ) matches Some(classes) && all_within(child.models[k].1, classes))
            &&& forall|k: int|
                0 <= k < child.effects.len() ==> parent.effects.contains(#[trigger] child.effects[k])
        },
{
    tools_all(child.tools, parent.tools, 0);
    paths_all(child.paths, parent.paths, 0);
    destinations_all(child.destinations, parent.destinations, 0);
    secrets_all(child.secrets, parent.secrets, 0);
    accounts_all(child.accounts, parent.accounts, 0);
    models_all(child.models, parent.models, 0);
    if child.subset(parent) is Ok {
        assert forall|k: int| 0 <= k < child.paths.len() implies exists|j: int|
            {
                &&& 0 <= j < parent.paths.len()
                &&& (#[trigger] parent.paths[j]).root.case_folded == (
                #[trigger] child.paths[k]).root.case_folded
                &&& parent.paths[j].root.components.is_prefix_of(child.paths[k].root.components)
                &&& child.paths[k].rights.read ==> parent.paths[j].rights.read
                &&& child.paths[k].rights.write ==> parent.paths[j].rights.write
            } by {
            assert(path_covered(child.paths[k], parent.paths));
            let j = choose|j: int|
                0 <= j < parent.paths.len() && child.paths[k].narrows(#[trigger] parent.paths[j]);
            assert(child.paths[k].root.within(parent.paths[j].root));
        }
        assert forall|k: int| 0 <= k < child.destinations.len() implies exists|j: int|
            0 <= j < parent.destinations.len() && (#[trigger] child.destinations[k]).subset(
                #[trigger] parent.destinations[j],
            ) is Ok by {
            assert(destination_covered(child.destinations[k], parent.destinations));
        }
        assert forall|k: int| 0 <= k < child.models.len() implies (lookup(
            parent.models,
            (#[trigger] child.models[k]).0,
        ) matches Some(classes) && all_within(child.models[k].1, classes)) by {
            assert(model_covered(child.models[k], parent.models));
        }
    } else {
        if paths_covered(child.paths, parent.paths, 0) is Err {
            let k = choose|k: int|
                0 <= k < child.paths.len() && !path_covered(#[trigger] child.paths[k], parent.paths);
            assert forall|j: int| 0 <= j < parent.paths.len() implies !child.paths[k].narrows(
                #[trigger] parent.paths[j],
            ) by {}
        } else if destinations_covered(child.destinations, parent.destinations, 0) is Err {
            let k = choose|k: int|
                0 <= k < child.destinations.len() && !destination_covered(
                    #[trigger] child.destinations[k],
                    parent.destinations,
                );
            assert forall|j: int|
                0 <= j < parent.destinations.len() implies child.destinations[k].subset(
                #[trigger] parent.destinations[j],
            ) is Err by {}
        } else if models_covered(child.models, parent.models, 0) is Err {
            let k = choose|k: int|
                0 <= k < child.models.len() && !model_covered(
                    #[trigger] child.models[k],
                    parent.models,
                );
            assert(!(lookup(parent.models, child.models[k].0) matches Some(classes) && all_within(
                child.models[k].1,
                classes,
            )));
        }
    }
}

proof fn tools_all(
    child: Seq<(Seq<char>, Seq<char>)>,
    parent: Seq<(Seq<char>, Seq<char>)>,
    i: int,
)
    requires
        0 <= i <= child.len(),
    ensures
        tools_covered(child, parent, i) is Ok <==> forall|k: int|
            i <= k < child.len() ==> tool_covered(#[trigger] child[k], parent) is Ok,
    decreases child.len() - i,
{
    if i < child.len() {
        tools_all(child, parent, i + 1);
        if forall|k: int| i <= k < child.len() ==> tool_covered(#[trigger] child[k], parent) is Ok {
            assert(tool_covered(child[i], parent) is Ok);
        }
    }
}

/// The strings that the digest of a scope is taken of name every part of it:
/// each tool with its requirement, each path with its rights, each destination,
/// each secret, each account, each provider with its classes, and each effect.
pub proof fn digested_strings_name_every_part(s: ScopeView, i: int)
    ensures
        0 <= i < s.tools.len() ==> s.items().contains(
            "tool:"@ + s.tools[i].0 + "@"@ + s.tools[i].1,
        ),
        0 <= i < s.paths.len() ==> s.items().contains(
            "path:"@ + s.paths[i].root.form() + ":"@ + flag_text(s.paths[i].rights.read) + ":"@
                + flag_text(s.paths[i].rights.write),
        ),
        0 <= i < s.destinations.len() ==> s.items().contains(s.destinations[i].form()),
        0 <= i < s.secrets.len() ==> s.items().contains("secret:"@ + s.secrets[i]),
        0 <= i < s.accounts.len() ==> s.items().contains(s.accounts[i].form()),
        0 <= i < s.models.len() ==> s.items().contains(
            "model:"@ + s.models[i].0 + ":"@ + join(s.models[i].1, ','),
        ),
        0 <= i < s.effects.len() ==> s.items().contains("effect:"@ + s.effects[i].label()),
        s.items().len() == s.tools.len() + s.paths.len() + s.destinations.len() + s.secrets.len()
            + s.accounts.len() + s.models.len() + text_set(effect_labels(s.effects)).len(),
{
    let a = tool_items(s.tools);
    let b = sort_texts(path_items(s.paths));
    let c = sort_texts(destination_items(s.destinations));
    let d = secret_items(s.secrets);
    let e = account_items(s.accounts);
    let f = model_items(s.models);
    let g = effect_items(s.effects);
    let all = s.items();
    sorting_keeps_the_texts(path_items(s.paths));
    sorting_keeps_the_texts(destination_items(s.destinations));
    if 0 <= i < s.tools.len() {
        assert(all[i] == a[i]);
    }
    if 0 <= i < s.paths.len() {
        let x = path_items(s.paths)[i];
        assert(path_items(s.paths).contains(x));
        assert(b.contains(x));
        let k = choose|k: int| 0 <= k < b.len() && b[k] == x;
        assert(all[a.len() + k] == x);
    }
    if 0 <= i < s.destinations.len() {
        let x = destination_items(s.destinations)[i];
        assert(destination_items(s.destinations).contains(x));
        assert(c.contains(x));
        let k = choose|k: int| 0 <= k < c.len() && c[k] == x;
        assert(all[a.len() + b.len() + k] == x);
    }
    if 0 <= i < s.secrets.len() {
        assert(all[a.len() + b.len() + c.len() + i] == d[i]);
    }
    if 0 <= i < s.accounts.len() {
        assert(all[a.len() + b.len() + c.len() + d.len() + i] == e[i]);
    }
    if 0 <= i < s.models.len() {
        assert(all[a.len() + b.len() + c.len() + d.len() + e.len() + i] == f[i]);
    }
    if 0 <= i < s.effects.len() {
        let labels = effect_labels(s.effects);
        text_set_members(labels);
        assert(labels[i] == s.effects[i].label());
        assert(labels.contains(labels[i]));
        assert(text_set(labels).contains(labels[i]));
        let k = choose|k: int| 0 <= k < text_set(labels).len() && text_set(labels)[k] == labels[i];
        assert(g[k] == "effect:"@ + labels[i]);
        assert(all[a.len() + b.len() + c.len() + d.len() + e.len() + f.len() + k] == g[k]);
    }
}

proof fn sorting_keeps_the_texts(t: Seq<Seq<char>>)
    ensures
        sort_texts(t).len() == t.len(),
        forall|x: Seq<char>| #[trigger] sort_texts(t).contains(x) <==> t.contains(x),
{
    text_order_is_total();
    t.lemma_sort_by_ensures(text_le());
    let s = sort_texts(t);
    assert(s.len() == t.len()) by {
        broadcast use vstd::seq_lib::group_to_multiset_ensures;

        assert(s.to_multiset().len() == t.to_multiset().len());
    }
    assert forall|x: Seq<char>| #[trigger] s.contains(x) <==> t.contains(x) by {
        broadcast use vstd::seq_lib::group_to_multiset_ensures;

        assert(s.contains(x) <==> s.to_multiset().contains(x));
        assert(t.contains(x) <==> t.to_multiset().contains(x));
    }
}

} // verus!
