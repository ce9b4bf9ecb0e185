//! Actions that a run asks for, and their fingerprints.

use crate::capability::{
    ascending, ascending_lists_are_unique, capabilities_are_told_apart, ordered_capabilities,
    Capability, CapabilityView,
};
use crate::digest::{sha256_hex_str, text_digest};
use crate::identity::{ComponentId, PrincipalId, PrincipalView, WorkspaceId};
use crate::ids::{random_uuid, uuid_text, uuid_text_is_injective, uuid_to_text};
use crate::json::{
    array, item_models, keys_ascend, no_fields, no_members, object, plain, put, string, Json, JsonView,
};
use crate::ordered::{
    ascending_keys, ascending_tables_are_unique, lookup, lookup_stands, standing_is_found, OrderedTable,
};
use crate::lists::views;
use crate::text::{is_lower_name, lower_name, str_eq, str_lt, text_lt, text_lt_transitive};
use vstd::prelude::*;

verus! {

/// The identity of an action.
#[derive(Clone, Copy, Debug, PartialEq, Eq, PartialOrd, Ord, Hash, Structural)]
pub struct ActionId {
    pub value: u128,
}

impl ActionId {
    /// A fresh random identity.
    pub fn new() -> (r: ActionId)
        ensures
            r.value & 0xF000_C000_0000_0000_0000 == 0x4000_8000_0000_0000_0000,
    {
        ActionId { value: random_uuid() }
    }

    /// The identity with the given bits.
    pub fn from_uuid(value: u128) -> (r: ActionId)
        ensures
            r.value == value,
    {
        ActionId { value }
    }

    /// The hyphenated text.
    pub fn to_text(&self) -> (r: String)
        ensures
            r@ == uuid_text(self.value),
    {
        uuid_to_text(self.value)
    }
}

impl Default for ActionId {
    fn default() -> (r: ActionId)
        ensures
            r.value & 0xF000_C000_0000_0000_0000 == 0x4000_8000_0000_0000_0000,
    {
        ActionId::new()
    }
}

/// The identity of a run.
#[derive(Clone, Copy, Debug, PartialEq, Eq, PartialOrd, Ord, Hash, Structural)]
pub struct RunId {
    pub value: u128,
}

impl RunId {
    /// A fresh random identity.
    pub fn new() -> (r: RunId)
        ensures
            r.value & 0xF000_C000_0000_0000_0000 == 0x4000_8000_0000_0000_0000,
    {
        RunId { value: random_uuid() }
    }

    /// The identity with the given bits.
    pub fn from_uuid(value: u128) -> (r: RunId)
        ensures
            r.value == value,
    {
        RunId { value }
    }

    /// The hyphenated text.
    pub fn to_text(&self) -> (r: String)
        ensures
            r@ == uuid_text(self.value),
    {
        uuid_to_text(self.value)
    }
}

impl Default for RunId {
    fn default() -> (r: RunId)
        ensures
            r.value & 0xF000_C000_0000_0000_0000 == 0x4000_8000_0000_0000_0000,
    {
        RunId::new()
    }
}

/// Why an action is refused.
#[derive(Clone, Copy, Debug, PartialEq, Eq, Structural)]
pub enum ActionError {
    InvalidKind,
}

impl ActionError {
    /// The message of the error.
    pub open spec fn text(self) -> Seq<char> {
        "action kind must use lowercase ASCII letters, digits, dots, underscores, or hyphens"@
    }

    /// The message of the error.
    pub fn message(&self) -> (r: &'static str)
        ensures
            r@ == self.text(),
    {
        "action kind must use lowercase ASCII letters, digits, dots, underscores, or hyphens"
    }
}

/// The kind of an action: lowercase letters, digits, dots, underscores and
/// hyphens.
#[derive(Debug, PartialEq, Eq, PartialOrd, Ord, Hash)]
pub struct ActionKind {
    value: String,
}

impl View for ActionKind {
    type V = Seq<char>;

    closed spec fn view(&self) -> Seq<char> {
        self.value@
    }
}

impl Clone for ActionKind {
    fn clone(&self) -> (r: ActionKind)
        ensures
            r@ == self@,
    {
        ActionKind { value: self.value.clone() }
    }
}

impl ActionKind {
    /// Checks and takes the text.
    pub fn new(value: String) -> (r: Result<ActionKind, ActionError>)
        ensures
            match r {
                Ok(v) => lower_name(value@, 128) && v@ == value@,
                Err(e) => !(lower_name(value@, 128)) && e == ActionError::InvalidKind,
            },
    {
        if !is_lower_name(value.as_str(), 128) {
            return Err(ActionError::InvalidKind);
        }
        Ok(ActionKind { value })
    }

    /// The text.
    pub fn as_str(&self) -> (r: &str)
        ensures
            r@ == self@,
    {
        self.value.as_str()
    }
}

/// A value without fractions, whose objects list their members by ascending key.
#[derive(Debug, PartialEq, Eq)]
pub enum CanonicalValue {
    Null,
    Bool(bool),
    Integer(i64),
    String(String),
    Array(Vec<CanonicalValue>),
    Object(Vec<(String, CanonicalValue)>),
}

impl CanonicalValue {
    /// The JSON value.
    pub open spec fn model(self) -> JsonView
        decreases self,
    {
        match self {
            CanonicalValue::Null => JsonView::Null,
            CanonicalValue::Bool(b) => JsonView::Bool(b),
            CanonicalValue::Integer(n) => JsonView::Int(n as int),
            CanonicalValue::String(s) => JsonView::Str(s@),
            CanonicalValue::Array(v) => JsonView::Array(
                Seq::new(
                    v@.len(),
                    |i: int|
                        if 0 <= i < v@.len() {
                            v@[i].model()
                        } else {
                            JsonView::Null
                        },
                ),
            ),
            CanonicalValue::Object(m) => JsonView::Object(
                Seq::new(
                    m@.len(),
                    |i: int|
                        if 0 <= i < m@.len() {
                            (m@[i].0@, m@[i].1.model())
                        } else {
                            (Seq::<char>::empty(), JsonView::Null)
                        },
                ),
            ),
        }
    }
}

impl CanonicalValue {
    /// Every object in the value is a map: its keys ascend, each once.
    pub open spec fn wf(self) -> bool {
        keys_ascend(self.model())
    }
}

impl View for CanonicalValue {
    type V = JsonView;

    open spec fn view(&self) -> JsonView {
        self.model()
    }
}

/// The models of a list of entries.
pub open spec fn entry_models(m: Seq<(String, CanonicalValue)>) -> Seq<(Seq<char>, JsonView)> {
    m.map_values(|e: (String, CanonicalValue)| (e.0@, e.1@))
}

impl Clone for CanonicalValue {
    fn clone(&self) -> (r: CanonicalValue)
        ensures
            r@ == self@,
        decreases self,
    {
        match self {
            CanonicalValue::Null => CanonicalValue::Null,
            CanonicalValue::Bool(b) => CanonicalValue::Bool(*b),
            CanonicalValue::Integer(n) => CanonicalValue::Integer(*n),
            CanonicalValue::String(s) => CanonicalValue::String(s.clone()),
            CanonicalValue::Array(v) => {
                let mut out: Vec<CanonicalValue> = Vec::new();
                let mut i: usize = 0;
                while i < v.len()
                    invariant
                        self matches CanonicalValue::Array(w) && w == v,
                        i <= v@.len(),
                        out@.len() == i,
                        forall|k: int| 0 <= k < i ==> (#[trigger] out@[k])@ == v@[k]@,
                    decreases v@.len() - i,
                {
                    out.push(v[i].clone());
                    i += 1;
                }
                let r = CanonicalValue::Array(out);
                proof {
                    assert(r@->Array_0 =~= self@->Array_0);
                }
                r
            },
            CanonicalValue::Object(m) => {
                let mut out: Vec<(String, CanonicalValue)> = Vec::new();
                let mut i: usize = 0;
                while i < m.len()
                    invariant
                        self matches CanonicalValue::Object(w) && w == m,
                        i <= m@.len(),
                        out@.len() == i,
                        forall|k: int|
                            0 <= k < i ==> (#[trigger] out@[k]).0@ == m@[k].0@ && out@[k].1@
                                == m@[k].1@,
                    decreases m@.len() - i,
                {
                    out.push((m[i].0.clone(), m[i].1.clone()));
                    i += 1;
                }
                let r = CanonicalValue::Object(out);
                proof {
                    assert(r@->Object_0 =~= self@->Object_0);
                }
                r
            },
        }
    }
}

impl CanonicalValue {
    /// The JSON value.
    pub fn to_json(&self) -> (r: Json)
        ensures
            r@ == self@,
        decreases self,
    {
        match self {
            CanonicalValue::Null => Json::Null,
            CanonicalValue::Bool(b) => Json::Bool(*b),
            CanonicalValue::Integer(n) => Json::Int(*n),
            CanonicalValue::String(s) => Json::Str(s.clone()),
            CanonicalValue::Array(v) => {
                let mut out: Vec<Json> = Vec::new();
                let mut i: usize = 0;
                while i < v.len()
                    invariant
                        self matches CanonicalValue::Array(w) && w == v,
                        i <= v@.len(),
                        out@.len() == i,
                        forall|k: int| 0 <= k < i ==> (#[trigger] out@[k])@ == v@[k]@,
                    decreases v@.len() - i,
                {
                    out.push(v[i].to_json());
                    i += 1;
                }
                let r = Json::Array(out);
                proof {
                    assert(r@->Array_0 =~= self@->Array_0);
                }
                r
            },
            CanonicalValue::Object(m) => {
                let mut out: Vec<(String, Json)> = Vec::new();
                let mut i: usize = 0;
                while i < m.len()
                    invariant
                        self matches CanonicalValue::Object(w) && w == m,
                        i <= m@.len(),
                        out@.len() == i,
                        forall|k: int|
                            0 <= k < i ==> (#[trigger] out@[k]).0@ == m@[k].0@ && out@[k].1@
                                == m@[k].1@,
                    decreases m@.len() - i,
                {
                    out.push((m[i].0.clone(), m[i].1.to_json()));
                    i += 1;
                }
                let r = Json::Object(out);
                proof {
                    assert(r@->Object_0 =~= self@->Object_0);
                }
                r
            },
        }
    }
}

impl CanonicalValue {
    /// The object with the given entries. Of several entries under one key
    /// the last one stays.
    pub fn object(entries: Vec<(String, CanonicalValue)>) -> (r: CanonicalValue)
        ensures
            r@ matches JsonView::Object(m) && ascending_keys(m) && forall|k: Seq<char>| #[trigger]
                lookup(m, k) == lookup(entry_models(entries@), k),
            (forall|i: int| 0 <= i < entries@.len() ==> (#[trigger] entries@[i]).1.wf())
                ==> r.wf(),
    {
        let ghost all = entry_models(entries@);
        let mut t: OrderedTable<CanonicalValue> = OrderedTable::new();
        let mut i: usize = 0;
        while i < entries.len()
            invariant
                i <= entries@.len(),
                all == entry_models(entries@),
                t.wf(),
                forall|k: Seq<char>| #[trigger] lookup(t@, k) == lookup(all.take(i as int), k),
            decreases entries@.len() - i,
        {
            let ghost before = t@;
            t.insert(entries[i].0.clone(), entries[i].1.clone());
            proof {
                let now = all.take(i + 1);
                assert(now.last() == (entries@[i as int].0@, entries@[i as int].1@));
                assert(now.drop_last() =~= all.take(i as int));
                assert forall|k: Seq<char>| #[trigger] lookup(t@, k) == lookup(now, k) by {
                    if k != now.last().0 {
                        assert(lookup(before, k) == lookup(all.take(i as int), k));
                    }
                }
            }
            i += 1;
        }
        let ghost m = t@;
        proof {
            assert(all.take(i as int) =~= all);
        }
        let r = CanonicalValue::Object(t.into_entries());
        proof {
            assert(r@->Object_0 =~= m);
            if forall|i: int| 0 <= i < entries@.len() ==> (#[trigger] entries@[i]).1.wf() {
                assert forall|i: int| 0 <= i < m.len() implies keys_ascend(
                    (#[trigger] m[i]).1,
                ) by {
                    standing_is_found(m, i);
                    assert(lookup(m, m[i].0) == lookup(all, m[i].0));
                    lookup_stands(all, m[i].0);
                    let k = choose|k: int|
                        0 <= k < all.len() && #[trigger] all[k] == (m[i].0, m[i].1);
                    assert(entries@[k].1.wf());
                }
            }
        }
        r
    }

    /// Whether every object in the value lists its members by ascending key,
    /// each once, as `object` builds it.
    pub fn is_wf(&self) -> (r: bool)
        ensures
            r == self.wf(),
        decreases self,
    {
        match self {
            CanonicalValue::Array(v) => {
                let ghost items = self@->Array_0;
                let mut i: usize = 0;
                while i < v.len()
                    invariant
                        i <= v@.len(),
                        items == self@->Array_0,
                        items.len() == v@.len(),
                        *self == CanonicalValue::Array(*v),
                        forall|k: int| 0 <= k < v@.len() ==> (#[trigger] items[k]) == v@[k]@,
                        forall|k: int| 0 <= k < i ==> keys_ascend(#[trigger] items[k]),
                    decreases v@.len() - i,
                {
                    if !v[i].is_wf() {
                        proof {
                            assert(!keys_ascend(items[i as int]));
                        }
                        return false;
                    }
                    i += 1;
                }
                true
            },
            CanonicalValue::Object(m) => {
                let ghost members = self@->Object_0;
                let mut i: usize = 0;
                while i < m.len()
                    invariant
                        i <= m@.len(),
                        members == self@->Object_0,
                        self@ is Object,
                        members.len() == m@.len(),
                        *self == CanonicalValue::Object(*m),
                        forall|k: int|
                            0 <= k < m@.len() ==> (#[trigger] members[k]) == (m@[k].0@, m@[k].1@),
                        ascending_keys(members.take(i as int)),
                        forall|k: int| 0 <= k < i ==> keys_ascend((#[trigger] members[k]).1),
                    decreases m@.len() - i,
                {
                    if !m[i].1.is_wf() {
                        proof {
                            assert(!keys_ascend(members[i as int].1));
                        }
                        return false;
                    }
                    if i > 0 && !str_lt(m[i - 1].0.as_str(), m[i].0.as_str()) {
                        proof {
                            assert(!text_lt(members[i - 1].0, members[i as int].0));
                        }
                        return false;
                    }
                    proof {
                        let next = members.take(i + 1);
                        assert forall|x: int, y: int|
                            #![trigger next[x], next[y]]
                            0 <= x < y < next.len() implies text_lt(next[x].0, next[y].0) by {
                            let before = members.take(i as int);
                            if y < i {
                                assert(before[x] == next[x] && before[y] == next[y]);
                            } else if x < i - 1 {
                                assert(before[x] == next[x] && before[i - 1] == next[i - 1]);
                                text_lt_transitive(next[x].0, next[i - 1].0, next[y].0);
                            }
                        }
                    }
                    i += 1;
                }
                proof {
                    assert(members.take(i as int) =~= members);
                }
                true
            },
            _ => true,
        }
    }

    /// The string value of a text.
    pub fn text(value: &str) -> (r: CanonicalValue)
        ensures
            r@ == JsonView::Str(value@),
    {
        CanonicalValue::String(value.to_owned())
    }
}

impl From<String> for CanonicalValue {
    fn from(value: String) -> (r: CanonicalValue) {
        CanonicalValue::String(value)
    }
}

impl vstd::std_specs::convert::FromSpecImpl<String> for CanonicalValue {
    open spec fn obeys_from_spec() -> bool {
        true
    }

    open spec fn from_spec(value: String) -> CanonicalValue {
        CanonicalValue::String(value)
    }
}

impl From<i64> for CanonicalValue {
    fn from(value: i64) -> (r: CanonicalValue) {
        CanonicalValue::Integer(value)
    }
}

impl vstd::std_specs::convert::FromSpecImpl<i64> for CanonicalValue {
    open spec fn obeys_from_spec() -> bool {
        true
    }

    open spec fn from_spec(value: i64) -> CanonicalValue {
        CanonicalValue::Integer(value)
    }
}

impl From<bool> for CanonicalValue {
    fn from(value: bool) -> (r: CanonicalValue) {
        CanonicalValue::Bool(value)
    }
}

impl vstd::std_specs::convert::FromSpecImpl<bool> for CanonicalValue {
    open spec fn obeys_from_spec() -> bool {
        true
    }

    open spec fn from_spec(value: bool) -> CanonicalValue {
        CanonicalValue::Bool(value)
    }
}

/// Two lists of entries that look up alike give the same object, whatever
/// their order.
pub proof fn object_ignores_entry_order(
    a: Seq<(Seq<char>, JsonView)>,
    b: Seq<(Seq<char>, JsonView)>,
    entries: Seq<(Seq<char>, JsonView)>,
    others: Seq<(Seq<char>, JsonView)>,
)
    requires
        ascending_keys(a) && forall|k: Seq<char>| #[trigger] lookup(a, k) == lookup(entries, k),
        ascending_keys(b) && forall|k: Seq<char>| #[trigger] lookup(b, k) == lookup(others, k),
        forall|k: Seq<char>| #[trigger] lookup(entries, k) == lookup(others, k),
    ensures
        a == b,
{
    assert forall|k: Seq<char>| #[trigger] lookup(a, k) == lookup(b, k) by {
        assert(lookup(b, k) == lookup(others, k));
        assert(lookup(entries, k) == lookup(others, k));
    }
    ascending_tables_are_unique(a, b);
}

/// An action that a component asks for on behalf of a principal.
#[derive(Clone, Debug, PartialEq, Eq)]
pub struct ActionEnvelope {
    schema_version: u16,
    action_id: ActionId,
    run_id: RunId,
    workspace_id: WorkspaceId,
    actor: PrincipalId,
    requesting_component: ComponentId,
    kind: ActionKind,
    arguments: CanonicalValue,
    required_capabilities: Vec<Capability>,
}

/// The model of an `ActionEnvelope`.
pub struct ActionView {
    pub schema_version: u16,
    pub action_id: ActionId,
    pub run_id: RunId,
    pub workspace_id: WorkspaceId,
    pub actor: PrincipalView,
    pub requesting_component: Seq<char>,
    pub kind: Seq<char>,
    pub arguments: JsonView,
    pub required_capabilities: Seq<CapabilityView>,
}

impl View for ActionEnvelope {
    type V = ActionView;

    closed spec fn view(&self) -> ActionView {
        ActionView {
            schema_version: self.schema_version,
            action_id: self.action_id,
            run_id: self.run_id,
            workspace_id: self.workspace_id,
            actor: self.actor@,
            requesting_component: self.requesting_component@,
            kind: self.kind@,
            arguments: self.arguments@,
            required_capabilities: views(self.required_capabilities@),
        }
    }
}

/// The JSON values of a list of capabilities.
pub open spec fn capabilities_json(c: Seq<CapabilityView>) -> Seq<JsonView> {
    c.map_values(|v: CapabilityView| v.json())
}

impl ActionView {
    /// The JSON value whose text is digested.
    pub open spec fn json(self) -> JsonView {
        let actor = no_fields().push(("provider"@, JsonView::Str(self.actor.provider))).push(
            ("subject"@, JsonView::Str(self.actor.subject)),
        );
        JsonView::Object(
            no_fields().push(("schema_version"@, JsonView::Int(self.schema_version as int))).push(
                ("action_id"@, JsonView::Str(uuid_text(self.action_id.value))),
            ).push(("run_id"@, JsonView::Str(uuid_text(self.run_id.value)))).push(
                ("workspace_id"@, JsonView::Str(uuid_text(self.workspace_id.value))),
            ).push(("actor"@, JsonView::Object(actor))).push(
                ("requesting_component"@, JsonView::Str(self.requesting_component)),
            ).push(("kind"@, JsonView::Str(self.kind))).push(("arguments"@, self.arguments)).push(
                (
                    "required_capabilities"@,
                    JsonView::Array(capabilities_json(self.required_capabilities)),
                ),
            ),
        )
    }

    /// The fingerprint.
    pub open spec fn fingerprint(self) -> Seq<char> {
        text_digest(plain(self.json()))
    }
}

impl ActionEnvelope {
    /// An action. Its capabilities are kept in ascending order, each once.
    pub fn new(
        action_id: ActionId,
        run_id: RunId,
        workspace_id: WorkspaceId,
        actor: PrincipalId,
        requesting_component: ComponentId,
        kind: ActionKind,
        arguments: CanonicalValue,
        required_capabilities: Vec<Capability>,
    ) -> (r: ActionEnvelope)
        requires
            arguments.wf(),
        ensures
            r@ == (ActionView {
                schema_version: 1,
                action_id,
                run_id,
                workspace_id,
                actor: actor@,
                requesting_component: requesting_component@,
                kind: kind@,
                arguments: arguments@,
                required_capabilities: r@.required_capabilities,
            }),
            ascending(r@.required_capabilities),
            forall|c: CapabilityView| #[trigger]
                r@.required_capabilities.contains(c) <==> views(required_capabilities@).contains(c),
    {
        ActionEnvelope {
            schema_version: 1,
            action_id,
            run_id,
            workspace_id,
            actor,
            requesting_component,
            kind,
            arguments,
            required_capabilities: ordered_capabilities(required_capabilities),
        }
    }

    /// The capabilities that the action needs.
    pub fn required_capabilities(&self) -> (r: &Vec<Capability>)
        ensures
            views(r@) == self@.required_capabilities,
    {
        &self.required_capabilities
    }

    /// The identity of the action.
    pub fn id(&self) -> (r: ActionId)
        ensures
            r == self@.action_id,
    {
        self.action_id
    }

    /// The run that asks for it.
    pub fn run_id(&self) -> (r: RunId)
        ensures
            r == self@.run_id,
    {
        self.run_id
    }

    /// The workspace that it is for.
    pub fn workspace_id(&self) -> (r: WorkspaceId)
        ensures
            r == self@.workspace_id,
    {
        self.workspace_id
    }

    /// Who acts.
    pub fn actor(&self) -> (r: &PrincipalId)
        ensures
            r@ == self@.actor,
    {
        &self.actor
    }

    /// The component that asks.
    pub fn requesting_component(&self) -> (r: &ComponentId)
        ensures
            r@ == self@.requesting_component,
    {
        &self.requesting_component
    }

    /// The kind of the action.
    pub fn kind(&self) -> (r: &ActionKind)
        ensures
            r@ == self@.kind,
    {
        &self.kind
    }

    /// The arguments.
    pub fn arguments(&self) -> (r: &CanonicalValue)
        ensures
            r@ == self@.arguments,
    {
        &self.arguments
    }

    /// The digest of the whole action.
    pub fn fingerprint(&self) -> (r: ActionFingerprint)
        ensures
            r@ == self@.fingerprint(),
    {
        let mut caps: Vec<Json> = Vec::new();
        let mut i: usize = 0;
        while i < self.required_capabilities.len()
            invariant
                i <= self.required_capabilities@.len(),
                caps@.len() == i,
                forall|k: int|
                    0 <= k < i ==> (#[trigger] caps@[k])@ == self.required_capabilities@[k]@.json(),
            decreases self.required_capabilities@.len() - i,
        {
            caps.push(self.required_capabilities[i].to_json());
            i += 1;
        }
        proof {
            assert(item_models(caps@) =~= capabilities_json(self@.required_capabilities));
        }
        let mut actor = no_members();
        put(&mut actor, "provider", string(self.actor.provider()));
        put(&mut actor, "subject", string(self.actor.subject()));
        let mut m = no_members();
        put(&mut m, "schema_version", Json::UInt(self.schema_version as u64));
        put(&mut m, "action_id", Json::Str(self.action_id.to_text()));
        put(&mut m, "run_id", Json::Str(self.run_id.to_text()));
        put(&mut m, "workspace_id", Json::Str(self.workspace_id.to_text()));
        put(&mut m, "actor", object(actor));
        put(&mut m, "requesting_component", string(self.requesting_component.as_str()));
        put(&mut m, "kind", string(self.kind.as_str()));
        put(&mut m, "arguments", self.arguments.to_json());
        put(&mut m, "required_capabilities", array(caps));
        let text = object(m).to_text();
        ActionFingerprint { value: sha256_hex_str(text.as_str()) }
    }
}

/// The fingerprint does not depend on the order in which capabilities are
/// listed, nor on how often one is listed.
pub proof fn fingerprint_ignores_capability_order(a: ActionView, b: ActionView)
    requires
        ascending(a.required_capabilities),
        ascending(b.required_capabilities),
        forall|c: CapabilityView| #[trigger]
            a.required_capabilities.contains(c) <==> b.required_capabilities.contains(c),
        b == (ActionView { required_capabilities: b.required_capabilities, ..a }),
    ensures
        a.fingerprint() == b.fingerprint(),
{
    ascending_lists_are_unique(a.required_capabilities, b.required_capabilities);
}

/// The digest of an action.
#[derive(Debug, PartialEq, Eq, Hash)]
pub struct ActionFingerprint {
    value: String,
}

impl View for ActionFingerprint {
    type V = Seq<char>;

    closed spec fn view(&self) -> Seq<char> {
        self.value@
    }
}

impl Clone for ActionFingerprint {
    fn clone(&self) -> (r: ActionFingerprint)
        ensures
            r@ == self@,
    {
        ActionFingerprint { value: self.value.clone() }
    }
}

impl ActionFingerprint {
    /// The text: 64 lowercase hexadecimal digits.
    pub fn as_str(&self) -> (r: &str)
        ensures
            r@ == self@,
    {
        self.value.as_str()
    }

    /// Whether both are the same fingerprint.
    pub fn same(&self, other: &ActionFingerprint) -> (r: bool)
        ensures
            r == (self@ == other@),
    {
        str_eq(self.value.as_str(), other.value.as_str())
    }
}

/// The value that is digested holds the whole action: two actions with the same
/// value are the same action, in every part.
pub proof fn digested_values_tell_actions_apart(a: ActionView, b: ActionView)
    requires
        a.json() == b.json(),
    ensures
        a == b,
{
    let x = a.json()->Object_0;
    let y = b.json()->Object_0;
    assert(x[0].1 == y[0].1);
    assert(x[1].1 == y[1].1);
    assert(x[2].1 == y[2].1);
    assert(x[3].1 == y[3].1);
    assert(x[4].1 == y[4].1);
    assert(x[5].1 == y[5].1);
    assert(x[6].1 == y[6].1);
    assert(x[7].1 == y[7].1);
    assert(x[8].1 == y[8].1);
    uuid_text_is_injective(a.action_id.value, b.action_id.value);
    uuid_text_is_injective(a.run_id.value, b.run_id.value);
    uuid_text_is_injective(a.workspace_id.value, b.workspace_id.value);
    let p = x[4].1->Object_0;
    let q = y[4].1->Object_0;
    assert(p[0].1 == q[0].1);
    assert(p[1].1 == q[1].1);
    let c = x[8].1->Array_0;
    let d = y[8].1->Array_0;
    assert(c == capabilities_json(a.required_capabilities));
    assert(d == capabilities_json(b.required_capabilities));
    assert(c.len() == a.required_capabilities.len() && d.len() == b.required_capabilities.len());
    assert forall|i: int| 0 <= i < a.required_capabilities.len() implies
        #[trigger] a.required_capabilities[i] == b.required_capabilities[i] by {
        assert(c[i] == d[i]);
        capabilities_are_told_apart(a.required_capabilities[i], b.required_capabilities[i]);
    }
    assert(a.required_capabilities =~= b.required_capabilities);
}

} // verus!
