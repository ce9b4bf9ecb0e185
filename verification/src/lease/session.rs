//! Sessions, revocation, keys, and what is known of leases.

use super::{LeaseDocument, LeaseView};
use crate::ids::{prefixed_id, random_uuid, uuid_text};
use crate::keys::{ed25519_accepts, ed25519_public, ed25519_signature, SigningKey, VerifyingKey};
use crate::nonce::{saturating_sub, saturating_sum};
use crate::ordered::TextSet;
use crate::table::Table;
use crate::text::{insert_sorted, sorted_texts, str_eq, texts};
use vstd::prelude::*;

verus! {

/// The keys that a kernel holds: the issuer key signs root leases and one-shot
/// leases, the host key signs audit checkpoints. Both live only here, and are
/// erased when the keys are dropped.
pub struct KernelKeys {
    pub issuer_key_id: String,
    issuer: SigningKey,
    pub host_key_id: String,
    host: SigningKey,
}

impl KernelKeys {
    /// The secret of the issuer key.
    pub closed spec fn issuer_seed(&self) -> Seq<u8> {
        self.issuer@
    }

    /// The secret of the host key.
    pub closed spec fn host_seed(&self) -> Seq<u8> {
        self.host@
    }

    /// The identity of the issuer key.
    pub closed spec fn issuer_id(&self) -> Seq<char> {
        self.issuer_key_id@
    }

    /// The identity of the host key.
    pub closed spec fn host_id(&self) -> Seq<char> {
        self.host_key_id@
    }

    /// Fresh random keys with fresh identities.
    pub fn generate() -> (r: KernelKeys)
        ensures
            exists|u: u128| r.issuer_id() == "kernel-issuer-"@ + #[trigger] uuid_text(u),
            exists|u: u128| r.host_id() == "kernel-host-"@ + #[trigger] uuid_text(u),
    {
        let i = random_uuid();
        let h = random_uuid();
        let r = KernelKeys {
            issuer_key_id: prefixed_id("kernel-issuer-", i),
            issuer: SigningKey::generate(),
            host_key_id: prefixed_id("kernel-host-", h),
            host: SigningKey::generate(),
        };
        proof {
            assert(r.issuer_key_id@ == "kernel-issuer-"@ + uuid_text(i));
            assert(r.host_key_id@ == "kernel-host-"@ + uuid_text(h));
        }
        r
    }

    pub(crate) fn issuer_id_text(&self) -> (r: &str)
        ensures
            r@ == self.issuer_id(),
    {
        self.issuer_key_id.as_str()
    }

    pub(crate) fn host_id_text(&self) -> (r: &str)
        ensures
            r@ == self.host_id(),
    {
        self.host_key_id.as_str()
    }

    pub(crate) fn issuer_key(&self) -> (r: &SigningKey)
        ensures
            r@ == self.issuer_seed(),
    {
        &self.issuer
    }

    pub(crate) fn host_key(&self) -> (r: &SigningKey)
        ensures
            r@ == self.host_seed(),
    {
        &self.host
    }

    /// The public issuer key.
    pub fn issuer_verifying(&self) -> (r: VerifyingKey)
        ensures
            r@ == ed25519_public(self.issuer_seed()),
    {
        self.issuer.verifying_key()
    }

    /// The public host key.
    pub fn host_verifying(&self) -> (r: VerifyingKey)
        ensures
            r@ == ed25519_public(self.host_seed()),
    {
        self.host.verifying_key()
    }

    /// A signature with the issuer key.
    pub fn issuer_sign(&self, msg: &[u8]) -> (r: Vec<u8>)
        ensures
            r@ == ed25519_signature(self.issuer_seed(), msg@),
            r@.len() == 64,
            ed25519_accepts(ed25519_public(self.issuer_seed()), msg@, r@),
    {
        self.issuer.sign(msg)
    }

    /// A signature with the host key.
    pub fn host_sign(&self, msg: &[u8]) -> (r: Vec<u8>)
        ensures
            r@ == ed25519_signature(self.host_seed(), msg@),
            r@.len() == 64,
            ed25519_accepts(ed25519_public(self.host_seed()), msg@, r@),
    {
        self.host.sign(msg)
    }
}

/// A registered session.
#[derive(Clone, Debug, PartialEq, Eq)]
pub struct SessionRecord {
    pub subject: String,
    pub parent_subject: Option<String>,
    pub verifying_key: VerifyingKey,
    pub active: bool,
    pub created_at_ms: i64,
}

/// The model of a `SessionRecord`.
pub struct SessionView {
    pub subject: Seq<char>,
    pub parent_subject: Option<Seq<char>>,
    pub verifying_key: Seq<u8>,
    pub active: bool,
    pub created_at_ms: i64,
}

impl View for SessionRecord {
    type V = SessionView;

    open spec fn view(&self) -> SessionView {
        SessionView {
            subject: self.subject@,
            parent_subject: super::optional(self.parent_subject),
            verifying_key: self.verifying_key@,
            active: self.active,
            created_at_ms: self.created_at_ms,
        }
    }
}

/// The sessions that a kernel knows.
#[derive(Debug)]
pub struct SessionRegistry {
    sessions: Table<SessionRecord>,
    max_lifetime_ms: Option<i64>,
}

/// The model of a `SessionRegistry`.
pub struct RegistryView {
    pub sessions: Map<Seq<char>, SessionView>,
    pub max_lifetime_ms: Option<i64>,
}

impl View for SessionRegistry {
    type V = RegistryView;

    closed spec fn view(&self) -> RegistryView {
        RegistryView { sessions: self.sessions@, max_lifetime_ms: self.max_lifetime_ms }
    }
}

impl RegistryView {
    /// A session that is registered, active and within its lifetime.
    pub open spec fn live(self, subject: Seq<char>, now_ms: i64) -> bool {
        self.sessions.dom().contains(subject) && self.sessions[subject].active && (
        match self.max_lifetime_ms {
            Some(ttl) => saturating_sum(
                now_ms as int,
                -(self.sessions[subject].created_at_ms as int),
            ) < ttl,
            None => true,
        })
    }

    /// `ancestor` is reached from `subject` in fewer than `hops` steps to a
    /// parent, over live sessions only.
    pub open spec fn descends(
        self,
        subject: Seq<char>,
        ancestor: Seq<char>,
        now_ms: i64,
        hops: nat,
    ) -> bool
        decreases hops,
    {
        if hops == 0 || !self.live(subject, now_ms) {
            false
        } else if subject == ancestor {
            true
        } else {
            match self.sessions[subject].parent_subject {
                Some(p) => self.descends(p, ancestor, now_ms, (hops - 1) as nat),
                None => false,
            }
        }
    }

    /// A session without a parent is reached from `subject` in fewer than
    /// `hops` steps, over live sessions only.
    pub open spec fn rooted(self, subject: Seq<char>, now_ms: i64, hops: nat) -> bool
        decreases hops,
    {
        if hops == 0 || !self.live(subject, now_ms) {
            false
        } else {
            match self.sessions[subject].parent_subject {
                Some(p) => self.rooted(p, now_ms, (hops - 1) as nat),
                None => true,
            }
        }
    }

    /// `subject` is a live descendant of `ancestor`, or the same live session.
    pub open spec fn active_descendant(
        self,
        subject: Seq<char>,
        ancestor: Seq<char>,
        now_ms: i64,
    ) -> bool {
        self.descends(subject, ancestor, now_ms, 256)
    }

    /// `subject` and all its ancestors are live.
    pub open spec fn subject_live(self, subject: Seq<char>, now_ms: i64) -> bool {
        self.rooted(subject, now_ms, 256)
    }
}

impl Default for SessionRegistry {
    fn default() -> (r: SessionRegistry)
        ensures
            r.wf(),
            r@ == (RegistryView { sessions: Map::empty(), max_lifetime_ms: None }),
    {
        SessionRegistry::new()
    }
}

impl SessionRegistry {
    /// The table of sessions is well formed.
    pub closed spec fn wf(&self) -> bool {
        self.sessions.wf()
    }

    /// A registry without sessions and without a lifetime.
    pub fn new() -> (r: SessionRegistry)
        ensures
            r.wf(),
            r@ == (RegistryView { sessions: Map::empty(), max_lifetime_ms: None }),
    {
        SessionRegistry { sessions: Table::new(), max_lifetime_ms: None }
    }

    /// Registers a session as active.
    pub fn register(
        &mut self,
        subject: String,
        parent_subject: Option<String>,
        verifying_key: VerifyingKey,
        created_at_ms: i64,
    )
        requires
            old(self).wf(),
        ensures
            final(self).wf(),
            final(self)@ == (RegistryView {
                sessions: old(self)@.sessions.insert(
                    subject@,
                    SessionView {
                        subject: subject@,
                        parent_subject: super::optional(parent_subject),
                        verifying_key: verifying_key@,
                        active: true,
                        created_at_ms,
                    },
                ),
                ..old(self)@
            }),
    {
        let record = SessionRecord {
            subject: subject.clone(),
            parent_subject,
            verifying_key,
            active: true,
            created_at_ms,
        };
        self.sessions.insert(subject, record);
    }

    /// Sets the lifetime of sessions.
    pub fn set_max_lifetime(&mut self, max_lifetime_ms: Option<i64>)
        requires
            old(self).wf(),
        ensures
            final(self).wf(),
            final(self)@ == (RegistryView { max_lifetime_ms, ..old(self)@ }),
    {
        self.max_lifetime_ms = max_lifetime_ms;
    }

    /// Marks a session as ended.
    pub fn deactivate(&mut self, subject: &str)
        requires
            old(self).wf(),
        ensures
            final(self).wf(),
            final(self)@ == (if old(self)@.sessions.dom().contains(subject@) {
                RegistryView {
                    sessions: old(self)@.sessions.insert(
                        subject@,
                        SessionView { active: false, ..old(self)@.sessions[subject@] },
                    ),
                    ..old(self)@
                }
            } else {
                old(self)@
            }),
    {
        let changed = match self.sessions.get(subject) {
            Some(r) => Some(
                SessionRecord {
                    subject: r.subject.clone(),
                    parent_subject: match &r.parent_subject {
                        Some(p) => Some(p.clone()),
                        None => None,
                    },
                    verifying_key: r.verifying_key,
                    active: false,
                    created_at_ms: r.created_at_ms,
                },
            ),
            None => None,
        };
        if let Some(record) = changed {
            self.sessions.insert(subject.to_owned(), record);
        }
    }

    /// The record of a session.
    pub fn get(&self, subject: &str) -> (r: Option<&SessionRecord>)
        requires
            self.wf(),
        ensures
            match r {
                Some(v) => self@.sessions.dom().contains(subject@) && v@
                    == self@.sessions[subject@],
                None => !self@.sessions.dom().contains(subject@),
            },
    {
        self.sessions.get(subject)
    }

    fn live(&self, subject: &str, now_ms: i64) -> (r: bool)
        requires
            self.wf(),
        ensures
            r == self@.live(subject@, now_ms),
    {
        match self.sessions.get(subject) {
            None => false,
            Some(record) => {
                if !record.active {
                    return false;
                }
                match self.max_lifetime_ms {
                    Some(ttl) => saturating_sub(now_ms, record.created_at_ms) < ttl,
                    None => true,
                }
            },
        }
    }

    fn parent_of(&self, subject: &str) -> (r: Option<String>)
        requires
            self.wf(),
            self@.sessions.dom().contains(subject@),
        ensures
            super::optional(r) == self@.sessions[subject@].parent_subject,
    {
        match self.sessions.get(subject) {
            Some(record) => match &record.parent_subject {
                Some(p) => Some(p.clone()),
                None => None,
            },
            None => None,
        }
    }

    /// Whether `subject` is a live descendant of `ancestor`, or the same live
    /// session. Every session on the way has to be live.
    pub fn is_active_descendant(&self, subject: &str, ancestor: &str, now_ms: i64) -> (r: bool)
        requires
            self.wf(),
        ensures
            r == self@.active_descendant(subject@, ancestor@, now_ms),
    {
        let mut current = subject.to_owned();
        let mut hops: u32 = 256;
        while hops > 0
            invariant
                self.wf(),
                hops <= 256,
                self@.active_descendant(subject@, ancestor@, now_ms) == self@.descends(
                    current@,
                    ancestor@,
                    now_ms,
                    hops as nat,
                ),
            decreases hops,
        {
            if !self.live(current.as_str(), now_ms) {
                return false;
            }
            if str_eq(current.as_str(), ancestor) {
                return true;
            }
            match self.parent_of(current.as_str()) {
                Some(p) => {
                    current = p;
                },
                None => {
                    return false;
                },
            }
            hops -= 1;
        }
        false
    }

    /// The live descendants of `subject`, itself included, in ascending order.
    pub fn active_descendants_inclusive(&self, subject: &str, now_ms: i64) -> (r: Vec<String>)
        requires
            self.wf(),
        ensures
            sorted_texts(texts(r@)),
            forall|s: Seq<char>| #[trigger]
                texts(r@).contains(s) <==> self@.sessions.dom().contains(s)
                    && self@.active_descendant(s, subject@, now_ms),
    {
        let mut out: Vec<String> = Vec::new();
        let mut i: usize = 0;
        let ghost keys = self.sessions.keys();
        proof {
            assert(texts(out@) =~= Seq::<Seq<char>>::empty());
        }
        while i < self.sessions.len()
            invariant
                self.wf(),
                keys == self.sessions.keys(),
                i <= keys.len(),
                sorted_texts(texts(out@)),
                forall|s: Seq<char>| #[trigger]
                    texts(out@).contains(s) <==> keys.take(i as int).contains(s)
                        && self@.active_descendant(s, subject@, now_ms),
            decreases keys.len() - i,
        {
            let key = self.sessions.key_at(i);
            let ghost before = texts(out@);
            let ghost kv = key@;
            let fits = self.is_active_descendant(key.as_str(), subject, now_ms);
            if fits {
                insert_sorted(&mut out, key.clone());
            }
            proof {
                let now = keys.take(i + 1);
                assert(now =~= keys.take(i as int).push(kv));
                assert forall|s: Seq<char>| #[trigger]
                    texts(out@).contains(s) <==> now.contains(s) && self@.active_descendant(
                        s,
                        subject@,
                        now_ms,
                    ) by {
                    assert(now.contains(s) <==> keys.take(i as int).contains(s) || s == kv) by {
                        if keys.take(i as int).contains(s) {
                            let k = choose|k: int|
                                0 <= k < keys.take(i as int).len() && keys.take(i as int)[k] == s;
                            assert(now[k] == s);
                        }
                        assert(now[i as int] == kv);
                        if now.contains(s) && s != kv {
                            let k = choose|k: int| 0 <= k < now.len() && now[k] == s;
                            assert(keys.take(i as int)[k] == s);
                        }
                    }
                    assert(before.contains(s) <==> keys.take(i as int).contains(s)
                        && self@.active_descendant(s, subject@, now_ms));
                }
            }
            i += 1;
        }
        proof {
            assert(keys.take(i as int) =~= keys);
            crate::table::table_keys(&self.sessions);
        }
        out
    }

    /// Whether `subject` and all its ancestors are live.
    pub fn is_subject_live(&self, subject: &str, now_ms: i64) -> (r: bool)
        requires
            self.wf(),
        ensures
            r == self@.subject_live(subject@, now_ms),
    {
        let mut current = subject.to_owned();
        let mut hops: u32 = 256;
        while hops > 0
            invariant
                self.wf(),
                hops <= 256,
                self@.subject_live(subject@, now_ms) == self@.rooted(
                    current@,
                    now_ms,
                    hops as nat,
                ),
            decreases hops,
        {
            if !self.live(current.as_str(), now_ms) {
                return false;
            }
            match self.parent_of(current.as_str()) {
                Some(p) => {
                    current = p;
                },
                None => {
                    return true;
                },
            }
            hops -= 1;
        }
        false
    }
}

/// The leases that were revoked. The epoch grows with every new revocation.
#[derive(Debug)]
pub struct RevocationIndex {
    revoked: TextSet,
    epoch: u64,
}

/// The model of a `RevocationIndex`.
pub struct RevocationView {
    pub revoked: Set<Seq<char>>,
    pub epoch: u64,
}

impl View for RevocationIndex {
    type V = RevocationView;

    closed spec fn view(&self) -> RevocationView {
        RevocationView { revoked: self.revoked@.to_set(), epoch: self.epoch }
    }
}

impl RevocationView {
    /// The index after a revocation.
    pub open spec fn revoke(self, id: Seq<char>) -> RevocationView {
        if self.revoked.contains(id) {
            self
        } else {
            RevocationView {
                revoked: self.revoked.insert(id),
                epoch: if self.epoch == u64::MAX {
                    self.epoch
                } else {
                    (self.epoch + 1) as u64
                },
            }
        }
    }
}

impl Default for RevocationIndex {
    fn default() -> (r: RevocationIndex)
        ensures
            r.wf(),
            r@ == (RevocationView { revoked: Set::empty(), epoch: 0 }),
    {
        RevocationIndex::new()
    }
}

impl RevocationIndex {
    /// The set is well formed.
    pub closed spec fn wf(&self) -> bool {
        self.revoked.wf()
    }

    /// An index without revocations.
    pub fn new() -> (r: RevocationIndex)
        ensures
            r.wf(),
            r@ == (RevocationView { revoked: Set::empty(), epoch: 0 }),
    {
        let r = RevocationIndex { revoked: TextSet::new(), epoch: 0 };
        proof {
            assert(r@.revoked =~= Set::<Seq<char>>::empty());
        }
        r
    }

    /// Revokes a lease.
    pub fn revoke(&mut self, lease_id: &str)
        requires
            old(self).wf(),
        ensures
            final(self).wf(),
            final(self)@ == old(self)@.revoke(lease_id@),
    {
        let ghost before = self@;
        if !self.revoked.contains(lease_id) {
            self.revoked.insert(lease_id.to_owned());
            if self.epoch < u64::MAX {
                self.epoch = self.epoch + 1;
            }
            proof {
                assert(self@.revoked =~= before.revoked.insert(lease_id@));
            }
        }
    }

    /// Whether a lease was revoked.
    pub fn is_revoked(&self, lease_id: &str) -> (r: bool)
        ensures
            r == self@.revoked.contains(lease_id@),
    {
        self.revoked.contains(lease_id)
    }

    /// The number of revocations so far.
    pub fn epoch(&self) -> (r: u64)
        ensures
            r == self@.epoch,
    {
        self.epoch
    }
}

/// Where leases are looked up.
pub trait LeaseResolver {
    /// The lease with the given identity.
    spec fn found(&self, id: Seq<char>) -> Option<LeaseView>;

    /// Looks a lease up. Its scope is well formed.
    fn lease(&self, id: &str) -> (r: Option<LeaseDocument>)
        ensures
            match r {
                Some(d) => self.found(id@) == Some(d@) && d@.scope.wf(),
                None => self.found(id@) is None,
            },
    ;
}

/// Leases in memory.
#[derive(Debug)]
pub struct LeaseTable {
    leases: Table<LeaseDocument>,
}

impl LeaseTable {
    /// The leases by identity.
    pub closed spec fn held(&self) -> Map<Seq<char>, LeaseView> {
        self.leases@
    }

    #[verifier::type_invariant]
    spec fn valid(self) -> bool {
        self.leases.wf() && forall|id: Seq<char>| #[trigger]
            self.leases@.dom().contains(id) ==> self.leases@[id].scope.wf()
    }

    /// No leases.
    pub fn new() -> (r: LeaseTable)
        ensures
            r.held() == Map::<Seq<char>, LeaseView>::empty(),
    {
        LeaseTable { leases: Table::new() }
    }

    /// The leases with one more, in place of what had its identity.
    pub fn with(self, lease: LeaseDocument) -> (r: LeaseTable)
        requires
            lease@.scope.wf(),
        ensures
            r.held() == self.held().insert(lease@.lease_id, lease@),
    {
        proof {
            use_type_invariant(&self);
        }
        let mut leases = self.leases;
        leases.insert(lease.lease_id.clone(), lease);
        LeaseTable { leases }
    }
}

impl LeaseResolver for LeaseTable {
    closed spec fn found(&self, id: Seq<char>) -> Option<LeaseView> {
        if self.held().dom().contains(id) {
            Some(self.held()[id])
        } else {
            None
        }
    }

    fn lease(&self, id: &str) -> (r: Option<LeaseDocument>) {
        proof {
            use_type_invariant(self);
        }
        match self.leases.get(id) {
            Some(d) => Some(d.clone()),
            None => None,
        }
    }
}

/// Where the use of single-use leases is recorded.
pub trait OneShotTracker {
    /// The lease was used.
    spec fn used(&self, id: Seq<char>) -> bool;

    /// Nobody else writes to the tracker.
    spec fn exclusive(&self) -> bool;

    /// Records the use of a lease, and gives whether it was the first. A
    /// tracker that others write to may find it used although it was unused
    /// when last read; one that nobody else writes to answers exactly. No use
    /// is ever forgotten.
    fn consume(&mut self, lease_id: &str) -> (r: bool)
        ensures
            r ==> !old(self).used(lease_id@),
            old(self).exclusive() ==> r == !old(self).used(lease_id@),
            final(self).used(lease_id@),
            final(self).exclusive() == old(self).exclusive(),
            forall|id: Seq<char>| #[trigger] old(self).used(id) ==> final(self).used(id),
            old(self).exclusive() ==> forall|id: Seq<char>|
                id != lease_id@ && #[trigger] final(self).used(id) ==> old(self).used(id),
    ;

    /// Whether a lease was used.
    fn is_consumed(&self, lease_id: &str) -> (r: bool)
        ensures
            r == self.used(lease_id@),
    ;
}

/// The use of a lease was recorded: `first` says whether it was its first. A
/// tracker that nobody else writes to holds this use and nothing else new.
pub open spec fn use_recorded<T: OneShotTracker>(
    before: T,
    after: T,
    id: Seq<char>,
    first: bool,
) -> bool {
    &&& after.used(id)
    &&& first ==> !before.used(id)
    &&& before.exclusive() ==> first == !before.used(id)
    &&& after.exclusive() == before.exclusive()
    &&& forall|other: Seq<char>| #[trigger] before.used(other) ==> after.used(other)
    &&& before.exclusive() ==> forall|other: Seq<char>|
        other != id && #[trigger] after.used(other) ==> before.used(other)
}

/// The used leases, in memory.
#[derive(Debug)]
pub struct OneShotUses {
    ids: TextSet,
}

impl OneShotUses {
    #[verifier::type_invariant]
    spec fn valid(self) -> bool {
        self.ids.wf()
    }

    /// The used leases.
    pub closed spec fn all(&self) -> Set<Seq<char>> {
        self.ids@.to_set()
    }

    /// No used leases.
    pub fn new() -> (r: OneShotUses)
        ensures
            r.all() == Set::<Seq<char>>::empty(),
    {
        let r = OneShotUses { ids: TextSet::new() };
        proof {
            assert(r.all() =~= Set::<Seq<char>>::empty());
        }
        r
    }
}

impl OneShotTracker for OneShotUses {
    open spec fn used(&self, id: Seq<char>) -> bool {
        self.all().contains(id)
    }

    open spec fn exclusive(&self) -> bool {
        true
    }

    fn consume(&mut self, lease_id: &str) -> (r: bool)
        ensures
            r == !old(self).used(lease_id@),
            final(self).all() == old(self).all().insert(lease_id@),
    {
        proof {
            use_type_invariant(&*self);
        }
        let ghost before = self.all();
        if self.ids.contains(lease_id) {
            proof {
                assert(before =~= before.insert(lease_id@));
            }
            return false;
        }
        let mut ids = self.ids.clone();
        ids.insert(lease_id.to_owned());
        proof {
            assert(ids@.to_set() =~= before.insert(lease_id@));
        }
        *self = OneShotUses { ids };
        true
    }

    fn is_consumed(&self, lease_id: &str) -> (r: bool) {
        self.ids.contains(lease_id)
    }
}

/// Where the keys of issuer generations are looked up.
pub trait IssuerKeyResolver {
    /// The public key of a generation.
    spec fn key_of(&self, key_id: Seq<char>) -> Option<Seq<u8>>;

    /// The generation was killed.
    spec fn killed(&self, key_id: Seq<char>) -> bool;

    /// The public key of a generation, current or retired.
    fn issuer_verifying_key(&self, key_id: &str) -> (r: Option<VerifyingKey>)
        ensures
            match r {
                Some(k) => self.key_of(key_id@) == Some(k@),
                None => self.key_of(key_id@) is None,
            },
    ;

    /// Whether a generation was killed.
    fn is_generation_killed(&self, key_id: &str) -> (r: bool)
        ensures
            r == self.killed(key_id@),
    ;
}

/// Issuer generations in memory.
#[derive(Debug)]
pub struct IssuerKeys {
    keys: Table<VerifyingKey>,
    killed: TextSet,
}

impl IssuerKeys {
    #[verifier::type_invariant]
    spec fn valid(self) -> bool {
        self.keys.wf() && self.killed.wf()
    }

    /// The public keys by generation.
    pub closed spec fn known(&self) -> Map<Seq<char>, Seq<u8>> {
        self.keys@
    }

    /// The killed generations.
    pub closed spec fn dead(&self) -> Set<Seq<char>> {
        self.killed@.to_set()
    }

    /// No generations.
    pub fn new() -> (r: IssuerKeys)
        ensures
            r.known() == Map::<Seq<char>, Seq<u8>>::empty(),
            r.dead() == Set::<Seq<char>>::empty(),
    {
        let r = IssuerKeys { keys: Table::new(), killed: TextSet::new() };
        proof {
            assert(r.dead() =~= Set::<Seq<char>>::empty());
        }
        r
    }

    /// The generations with one more.
    pub fn record(self, key_id: &str, key: VerifyingKey) -> (r: IssuerKeys)
        ensures
            r.known() == self.known().insert(key_id@, key@),
            r.dead() == self.dead(),
    {
        proof {
            use_type_invariant(&self);
        }
        let mut keys = self.keys;
        keys.insert(key_id.to_owned(), key);
        IssuerKeys { keys, killed: self.killed }
    }

    /// The generations with one of them killed.
    pub fn kill(self, key_id: &str) -> (r: IssuerKeys)
        ensures
            r.known() == self.known(),
            r.dead() == self.dead().insert(key_id@),
    {
        proof {
            use_type_invariant(&self);
        }
        let ghost before = self.dead();
        let mut killed = self.killed.clone();
        killed.insert(key_id.to_owned());
        let r = IssuerKeys { keys: self.keys, killed };
        proof {
            assert(r.dead() =~= before.insert(key_id@));
        }
        r
    }
}

impl IssuerKeyResolver for IssuerKeys {
    open spec fn key_of(&self, key_id: Seq<char>) -> Option<Seq<u8>> {
        if self.known().dom().contains(key_id) {
            Some(self.known()[key_id])
        } else {
            None
        }
    }

    open spec fn killed(&self, key_id: Seq<char>) -> bool {
        self.dead().contains(key_id)
    }

    fn issuer_verifying_key(&self, key_id: &str) -> (r: Option<VerifyingKey>) {
        proof {
            use_type_invariant(self);
        }
        match self.keys.get(key_id) {
            Some(k) => Some(*k),
            None => None,
        }
    }

    fn is_generation_killed(&self, key_id: &str) -> (r: bool) {
        self.killed.contains(key_id)
    }
}

/// A session whose ancestry is live is live itself, and so is its parent's
/// ancestry: an ended or expired ancestor ends the whole subtree.
pub proof fn ended_ancestor_ends_descendants(
    registry: RegistryView,
    subject: Seq<char>,
    now_ms: i64,
    hops: nat,
)
    requires
        registry.rooted(subject, now_ms, hops),
    ensures
        registry.live(subject, now_ms),
        registry.sessions[subject].parent_subject matches Some(p) ==> hops > 0 && registry.rooted(
            p,
            now_ms,
            (hops - 1) as nat,
        ) && registry.live(p, now_ms),
{
    if let Some(p) = registry.sessions[subject].parent_subject {
        assert(registry.rooted(p, now_ms, (hops - 1) as nat));
    }
}

/// A live descendant of a session under a live chain: both ends are live.
pub proof fn descendants_are_live(
    registry: RegistryView,
    subject: Seq<char>,
    ancestor: Seq<char>,
    now_ms: i64,
    hops: nat,
)
    requires
        registry.descends(subject, ancestor, now_ms, hops),
    ensures
        registry.live(subject, now_ms),
        registry.live(ancestor, now_ms),
    decreases hops,
{
    if subject != ancestor {
        let p = registry.sessions[subject].parent_subject->0;
        descendants_are_live(registry, p, ancestor, now_ms, (hops - 1) as nat);
    }
}

/// A session is live exactly while it is registered, was not ended, and, where
/// lifetimes are limited, is younger than the limit.
pub proof fn sessions_live_until_they_end(registry: RegistryView, subject: Seq<char>, now_ms: i64)
    requires
        now_ms >= 0,
        registry.sessions.dom().contains(subject) ==> registry.sessions[subject].created_at_ms >= 0,
    ensures
        registry.live(subject, now_ms) <==> {
            &&& registry.sessions.dom().contains(subject)
            &&& registry.sessions[subject].active
            &&& registry.max_lifetime_ms matches Some(limit) ==> now_ms
                - registry.sessions[subject].created_at_ms < limit
        },
{
}

/// The sessions lead from one to the next over their parents, and all of them
/// are live.
pub open spec fn live_line(registry: RegistryView, line: Seq<Seq<char>>, now_ms: i64) -> bool {
    &&& line.len() > 0
    &&& forall|i: int| 0 <= i < line.len() ==> registry.live(#[trigger] line[i], now_ms)
    &&& forall|i: int|
        0 <= i < line.len() - 1 ==> registry.sessions[#[trigger] line[i]].parent_subject == Some(
            line[i + 1],
        )
}

/// A live descendant is joined to its ancestor by a line of live sessions, of
/// which there are at most 256, and a subject whose ancestry is live is joined
/// so to a session without a parent.
pub proof fn descendants_are_joined_by_live_sessions(
    registry: RegistryView,
    subject: Seq<char>,
    ancestor: Seq<char>,
    now_ms: i64,
)
    ensures
        registry.active_descendant(subject, ancestor, now_ms) ==> exists|line: Seq<Seq<char>>|
            #[trigger] live_line(registry, line, now_ms) && line.len() <= 256 && line[0] == subject
                && line.last() == ancestor,
        registry.subject_live(subject, now_ms) ==> exists|line: Seq<Seq<char>>|
            #[trigger] live_line(registry, line, now_ms) && line.len() <= 256 && line[0] == subject
                && registry.sessions[line.last()].parent_subject is None,
{
    if registry.active_descendant(subject, ancestor, now_ms) {
        let line = line_to(registry, subject, ancestor, now_ms, 256);
        assert(live_line(registry, line, now_ms));
    }
    if registry.subject_live(subject, now_ms) {
        let line = line_to_root(registry, subject, now_ms, 256);
        assert(live_line(registry, line, now_ms));
    }
}

proof fn line_to(
    registry: RegistryView,
    subject: Seq<char>,
    ancestor: Seq<char>,
    now_ms: i64,
    hops: nat,
) -> (line: Seq<Seq<char>>)
    requires
        registry.descends(subject, ancestor, now_ms, hops),
    ensures
        live_line(registry, line, now_ms),
        line.len() <= hops,
        line[0] == subject,
        line.last() == ancestor,
    decreases hops,
{
    let here = Seq::<Seq<char>>::empty().push(subject);
    if subject == ancestor {
        here
    } else {
        let p = registry.sessions[subject].parent_subject->0;
        let rest = line_to(registry, p, ancestor, now_ms, (hops - 1) as nat);
        line_grows(registry, subject, rest, now_ms);
        here + rest
    }
}

proof fn line_to_root(
    registry: RegistryView,
    subject: Seq<char>,
    now_ms: i64,
    hops: nat,
) -> (line: Seq<Seq<char>>)
    requires
        registry.rooted(subject, now_ms, hops),
    ensures
        live_line(registry, line, now_ms),
        line.len() <= hops,
        line[0] == subject,
        registry.sessions[line.last()].parent_subject is None,
    decreases hops,
{
    let here = Seq::<Seq<char>>::empty().push(subject);
    match registry.sessions[subject].parent_subject {
        None => here,
        Some(p) => {
            let rest = line_to_root(registry, p, now_ms, (hops - 1) as nat);
            line_grows(registry, subject, rest, now_ms);
            here + rest
        },
    }
}

proof fn line_grows(
    registry: RegistryView,
    subject: Seq<char>,
    rest: Seq<Seq<char>>,
    now_ms: i64,
)
    requires
        live_line(registry, rest, now_ms),
        registry.live(subject, now_ms),
        registry.sessions[subject].parent_subject == Some(rest[0]),
    ensures
        live_line(registry, Seq::<Seq<char>>::empty().push(subject) + rest, now_ms),
        (Seq::<Seq<char>>::empty().push(subject) + rest).last() == rest.last(),
{
    let all = Seq::<Seq<char>>::empty().push(subject) + rest;
    assert forall|i: int| 0 <= i < all.len() implies registry.live(#[trigger] all[i], now_ms) by {
        if i > 0 {
            assert(all[i] == rest[i - 1]);
        }
    }
    assert forall|i: int| 0 <= i < all.len() - 1 implies registry.sessions[
        #[trigger] all[i]
    ].parent_subject == Some(all[i + 1]) by {
        assert(all[i + 1] == rest[i]);
        if i > 0 {
            assert(all[i] == rest[i - 1]);
        }
    }
}

/// Whoever is joined to an ancestor by a line of at most 256 live sessions is a
/// live descendant.
pub proof fn joined_sessions_are_descendants(
    registry: RegistryView,
    line: Seq<Seq<char>>,
    now_ms: i64,
    hops: nat,
)
    requires
        live_line(registry, line, now_ms),
        line.len() <= hops,
    ensures
        registry.descends(line[0], line.last(), now_ms, hops),
        hops == 256 ==> registry.active_descendant(line[0], line.last(), now_ms),
    decreases line.len(),
{
    assert(registry.live(line[0], now_ms));
    if line[0] != line.last() {
        let rest = line.subrange(1, line.len() as int);
        assert(registry.sessions[line[0]].parent_subject == Some(line[1]));
        assert forall|i: int| 0 <= i < rest.len() implies registry.live(
            #[trigger] rest[i],
            now_ms,
        ) by {
            assert(registry.live(line[i + 1], now_ms));
        }
        assert forall|i: int| 0 <= i < rest.len() - 1 implies registry.sessions[
            #[trigger] rest[i]
        ].parent_subject == Some(rest[i + 1]) by {
            assert(registry.sessions[line[i + 1]].parent_subject == Some(line[i + 1 + 1]));
        }
        joined_sessions_are_descendants(registry, rest, now_ms, (hops - 1) as nat);
        assert(rest.last() == line.last());
    }
}

/// A revocation is for good: whatever is revoked stays revoked, the lease that
/// is named is among it, and nothing else is. The epoch moves on by one for
/// each lease, once.
pub proof fn revocations_are_for_good(v: RevocationView, id: Seq<char>, other: Seq<char>)
    ensures
        v.revoke(id).revoked.contains(id),
        v.revoke(id).revoked.contains(other) <==> v.revoked.contains(other) || other == id,
        v.epoch < u64::MAX && !v.revoked.contains(id) ==> v.revoke(id).epoch == v.epoch + 1,
        v.revoked.contains(id) ==> v.revoke(id).epoch == v.epoch,
        v.revoke(id).revoke(id) == v.revoke(id),
{
}

} // verus!
