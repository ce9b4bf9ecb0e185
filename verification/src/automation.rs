//! Jobs that run by themselves, and when they run next.

use crate::approval::TimestampMillis;
use crate::identity::{IdentityError, PrincipalId, PrincipalView};
use crate::ids::{random_uuid, uuid_text, uuid_text_is_injective, uuid_to_text};
use crate::text::{bytes_are_bounded, decimal, decimal_digits, plain_text, str_eq, u64_text};
use crate::version::{version_of_text, Version};
use vstd::arithmetic::div_mod::{
    lemma_fundamental_div_mod, lemma_mod_bound,
};
use vstd::prelude::*;

verus! {

/// Why a job is refused.
#[derive(Clone, Copy, Debug, PartialEq, Eq, Structural)]
pub enum AutomationError {
    InvalidRevision,
    InvalidSkillVersion,
    InvalidInterval,
}

impl AutomationError {
    /// The message of the error.
    pub open spec fn text(self) -> Seq<char> {
        match self {
            AutomationError::InvalidRevision => "job revision must be greater than zero"@,
            AutomationError::InvalidSkillVersion => "skill version must be canonical semantic version"@,
            AutomationError::InvalidInterval => "schedule interval must be positive and fit in milliseconds"@,
        }
    }

    /// The message of the error.
    pub fn message(&self) -> (r: &'static str)
        ensures
            r@ == self.text(),
    {
        match self {
            AutomationError::InvalidRevision => "job revision must be greater than zero",
            AutomationError::InvalidSkillVersion => "skill version must be canonical semantic version",
            AutomationError::InvalidInterval => "schedule interval must be positive and fit in milliseconds",
        }
    }
}

/// The identity of a job.
#[derive(Clone, Copy, Debug, PartialEq, Eq, PartialOrd, Ord, Hash, Structural)]
pub struct JobId {
    pub value: u128,
}

impl JobId {
    /// A fresh random identity.
    pub fn new() -> (r: JobId)
        ensures
            r.value & 0xF000_C000_0000_0000_0000 == 0x4000_8000_0000_0000_0000,
    {
        JobId { value: random_uuid() }
    }

    /// The identity with the given bits.
    pub fn from_uuid(value: u128) -> (r: JobId)
        ensures
            r.value == value,
    {
        JobId { value }
    }

    /// The bits of the identity.
    pub fn as_uuid(&self) -> (r: u128)
        ensures
            r == self.value,
    {
        self.value
    }

    /// The hyphenated text.
    pub fn to_text(&self) -> (r: String)
        ensures
            r@ == uuid_text(self.value),
    {
        uuid_to_text(self.value)
    }
}

impl Default for JobId {
    fn default() -> (r: JobId)
        ensures
            r.value & 0xF000_C000_0000_0000_0000 == 0x4000_8000_0000_0000_0000,
    {
        JobId::new()
    }
}

/// The identity of a skill.
#[derive(Clone, Copy, Debug, PartialEq, Eq, PartialOrd, Ord, Hash, Structural)]
pub struct SkillId {
    pub value: u128,
}

impl SkillId {
    /// A fresh random identity.
    pub fn new() -> (r: SkillId)
        ensures
            r.value & 0xF000_C000_0000_0000_0000 == 0x4000_8000_0000_0000_0000,
    {
        SkillId { value: random_uuid() }
    }

    /// The identity with the given bits.
    pub fn from_uuid(value: u128) -> (r: SkillId)
        ensures
            r.value == value,
    {
        SkillId { value }
    }

    /// The bits of the identity.
    pub fn as_uuid(&self) -> (r: u128)
        ensures
            r == self.value,
    {
        self.value
    }

    /// The hyphenated text.
    pub fn to_text(&self) -> (r: String)
        ensures
            r@ == uuid_text(self.value),
    {
        uuid_to_text(self.value)
    }
}

impl Default for SkillId {
    fn default() -> (r: SkillId)
        ensures
            r.value & 0xF000_C000_0000_0000_0000 == 0x4000_8000_0000_0000_0000,
    {
        SkillId::new()
    }
}

/// The revision of a job: greater than zero.
#[derive(Clone, Copy, Debug, PartialEq, Eq, PartialOrd, Ord, Hash, Structural)]
pub struct JobRevision {
    value: u64,
}

impl View for JobRevision {
    type V = u64;

    closed spec fn view(&self) -> u64 {
        self.value
    }
}

impl JobRevision {
    #[verifier::type_invariant]
    spec fn positive(self) -> bool {
        self.value > 0
    }

    /// Checks and takes the number.
    pub fn new(value: u64) -> (r: Result<JobRevision, AutomationError>)
        ensures
            match r {
                Ok(v) => value > 0 && v@ == value,
                Err(e) => value == 0 && e == AutomationError::InvalidRevision,
            },
    {
        if value == 0 {
            return Err(AutomationError::InvalidRevision);
        }
        Ok(JobRevision { value })
    }

    /// The number.
    pub fn as_u64(self) -> (r: u64)
        ensures
            r == self@,
            r > 0,
    {
        proof {
            use_type_invariant(&self);
        }
        self.value
    }
}

/// The version of a skill, in canonical form.
#[derive(Debug, PartialEq, Eq, PartialOrd, Ord, Hash)]
pub struct SkillVersion {
    value: String,
}

impl View for SkillVersion {
    type V = Seq<char>;

    closed spec fn view(&self) -> Seq<char> {
        self.value@
    }
}

impl Clone for SkillVersion {
    fn clone(&self) -> (r: SkillVersion)
        ensures
            r@ == self@,
    {
        SkillVersion { value: self.value.clone() }
    }
}

/// The text is a semantic version in its canonical form.
pub open spec fn canonical_version(s: Seq<char>) -> bool {
    version_of_text(s) == Some(s)
}

impl SkillVersion {
    /// Checks and takes the text.
    pub fn parse(value: String) -> (r: Result<SkillVersion, AutomationError>)
        ensures
            match r {
                Ok(v) => canonical_version(value@) && v@ == value@,
                Err(e) => !canonical_version(value@) && e == AutomationError::InvalidSkillVersion,
            },
    {
        match Version::parse(value.as_str()) {
            Some(v) => {
                if !str_eq(value.as_str(), v.as_str()) {
                    return Err(AutomationError::InvalidSkillVersion);
                }
                Ok(SkillVersion { value })
            },
            None => Err(AutomationError::InvalidSkillVersion),
        }
    }

    /// The text.
    pub fn as_str(&self) -> (r: &str)
        ensures
            r@ == self@,
    {
        self.value.as_str()
    }
}

/// The key of an occurrence: job, revision and time.
pub open spec fn occurrence_text(job: JobId, revision: u64, at: TimestampMillis) -> Seq<char> {
    uuid_text(job.value).push(':') + decimal(revision as nat).push(':') + decimal(at.value as nat)
}

/// One occurrence of a job, with the key that it is known by.
#[derive(Clone, Debug, PartialEq, Eq, PartialOrd, Ord, Hash)]
pub struct OccurrenceKey {
    job_id: JobId,
    revision: JobRevision,
    scheduled_for: TimestampMillis,
    value: String,
}

/// The model of an `OccurrenceKey`.
pub struct OccurrenceView {
    pub job_id: JobId,
    pub revision: u64,
    pub scheduled_for: TimestampMillis,
    pub value: Seq<char>,
}

impl View for OccurrenceKey {
    type V = OccurrenceView;

    closed spec fn view(&self) -> OccurrenceView {
        OccurrenceView {
            job_id: self.job_id,
            revision: self.revision@,
            scheduled_for: self.scheduled_for,
            value: self.value@,
        }
    }
}

/// An occurrence of a job.
pub open spec fn occurrence(job_id: JobId, revision: u64, at: TimestampMillis) -> OccurrenceView {
    OccurrenceView {
        job_id,
        revision,
        scheduled_for: at,
        value: occurrence_text(job_id, revision, at),
    }
}

impl OccurrenceKey {
    /// An occurrence of a job.
    pub fn new(job_id: JobId, revision: JobRevision, scheduled_for: TimestampMillis) -> (r:
        OccurrenceKey)
        ensures
            r@ == occurrence(job_id, revision@, scheduled_for),
    {
        let mut value = job_id.to_text();
        value.push(':');
        value.append(u64_text(revision.as_u64()).as_str());
        value.push(':');
        value.append(u64_text(scheduled_for.value).as_str());
        proof {
            assert(value@ =~= occurrence_text(job_id, revision@, scheduled_for));
        }
        OccurrenceKey { job_id, revision, scheduled_for, value }
    }

    /// The job.
    pub fn job_id(&self) -> (r: JobId)
        ensures
            r == self@.job_id,
    {
        self.job_id
    }

    /// The revision of the job.
    pub fn revision(&self) -> (r: JobRevision)
        ensures
            r@ == self@.revision,
    {
        self.revision
    }

    /// When it is due.
    pub fn scheduled_for(&self) -> (r: TimestampMillis)
        ensures
            r == self@.scheduled_for,
    {
        self.scheduled_for
    }

    /// The key.
    pub fn as_str(&self) -> (r: &str)
        ensures
            r@ == self@.value,
    {
        self.value.as_str()
    }
}

/// Two occurrences with the same key are the same occurrence.
pub proof fn occurrence_keys_differ(
    job: JobId,
    revision: u64,
    at: TimestampMillis,
    other_job: JobId,
    other_revision: u64,
    other_at: TimestampMillis,
)
    requires
        occurrence_text(job, revision, at) == occurrence_text(other_job, other_revision, other_at),
    ensures
        job == other_job,
        revision == other_revision,
        at == other_at,
{
    let u = uuid_text(job.value);
    let v = uuid_text(other_job.value);
    let r = decimal(revision as nat);
    let q = decimal(other_revision as nat);
    let t = decimal(at.value as nat);
    let w = decimal(other_at.value as nat);
    let x = occurrence_text(job, revision, at);
    let y = occurrence_text(other_job, other_revision, other_at);
    uuid_text_is_injective(job.value, other_job.value);
    decimal_digits(revision as nat);
    decimal_digits(other_revision as nat);
    decimal_digits(at.value as nat);
    decimal_digits(other_at.value as nat);
    assert(x =~= u + Seq::<char>::empty().push(':') + r + Seq::<char>::empty().push(':') + t);
    assert(y =~= v + Seq::<char>::empty().push(':') + q + Seq::<char>::empty().push(':') + w);
    assert(x.subrange(0, 36) =~= u);
    assert(y.subrange(0, 36) =~= v);
    assert(x[37 + r.len() as int] == ':');
    assert(y[37 + q.len() as int] == ':');
    if r.len() < q.len() {
        assert(y[37 + r.len() as int] == q[r.len() as int]);
    } else if q.len() < r.len() {
        assert(x[37 + q.len() as int] == r[q.len() as int]);
    }
    assert(x.subrange(37, 37 + r.len() as int) =~= r);
    assert(y.subrange(37, 37 + q.len() as int) =~= q);
    assert(x.subrange(38 + r.len() as int, x.len() as int) =~= t);
    assert(y.subrange(38 + q.len() as int, y.len() as int) =~= w);
}

/// The occurrence that a run comes from.
#[derive(Clone, Debug, PartialEq, Eq)]
pub struct JobOrigin {
    job_id: JobId,
    revision: JobRevision,
    scheduled_for: TimestampMillis,
    occurrence_key: OccurrenceKey,
}

/// The model of a `JobOrigin`.
pub struct OriginView {
    pub job_id: JobId,
    pub revision: u64,
    pub scheduled_for: TimestampMillis,
    pub occurrence_key: OccurrenceView,
}

impl View for JobOrigin {
    type V = OriginView;

    closed spec fn view(&self) -> OriginView {
        OriginView {
            job_id: self.job_id,
            revision: self.revision@,
            scheduled_for: self.scheduled_for,
            occurrence_key: self.occurrence_key@,
        }
    }
}

impl JobOrigin {
    /// The origin of a run of a job.
    pub fn new(job_id: JobId, revision: JobRevision, scheduled_for: TimestampMillis) -> (r:
        JobOrigin)
        ensures
            r@ == (OriginView {
                job_id,
                revision: revision@,
                scheduled_for,
                occurrence_key: occurrence(job_id, revision@, scheduled_for),
            }),
    {
        let occurrence_key = OccurrenceKey::new(job_id, revision, scheduled_for);
        JobOrigin { job_id, revision, scheduled_for, occurrence_key }
    }

    /// The job.
    pub fn job_id(&self) -> (r: JobId)
        ensures
            r == self@.job_id,
    {
        self.job_id
    }

    /// The revision of the job.
    pub fn revision(&self) -> (r: JobRevision)
        ensures
            r@ == self@.revision,
    {
        self.revision
    }

    /// When it was due.
    pub fn scheduled_for(&self) -> (r: TimestampMillis)
        ensures
            r == self@.scheduled_for,
    {
        self.scheduled_for
    }

    /// The occurrence.
    pub fn occurrence_key(&self) -> (r: &OccurrenceKey)
        ensures
            r@ == self@.occurrence_key,
    {
        &self.occurrence_key
    }
}

/// When a job runs.
#[derive(Clone, Copy, Debug, PartialEq, Eq, Structural)]
pub enum ScheduleSpec {
    Once { run_at: TimestampMillis },
    Interval { start_at: TimestampMillis, interval_millis: u64 },
}

impl ScheduleSpec {
    /// A time at which the job runs.
    pub open spec fn is_due(self, t: int) -> bool {
        match self {
            ScheduleSpec::Once { run_at } => t == run_at.value,
            ScheduleSpec::Interval { start_at, interval_millis } => exists|k: nat|
                t == start_at.value + #[trigger] steps(k, interval_millis),
        }
    }

    /// How many intervals have passed at a time.
    pub open spec fn passed(self, t: TimestampMillis) -> int {
        match self {
            ScheduleSpec::Once { .. } => 0,
            ScheduleSpec::Interval { start_at, interval_millis } => (t.value as int
                - start_at.value as int) / interval_millis as int,
        }
    }

    /// The next time after `t`, if there is one that can be written.
    pub open spec fn following(self, t: TimestampMillis, enabled: bool) -> Option<TimestampMillis> {
        if !enabled {
            None
        } else {
            match self {
                ScheduleSpec::Once { run_at } => if t.value < run_at.value {
                    Some(run_at)
                } else {
                    None
                },
                ScheduleSpec::Interval { start_at, interval_millis } => if t.value
                    < start_at.value {
                    Some(start_at)
                } else {
                    let next = start_at.value + steps(
                        (self.passed(t) + 1) as nat,
                        interval_millis,
                    );
                    if next <= u64::MAX {
                        Some(TimestampMillis { value: next as u64 })
                    } else {
                        None
                    }
                },
            }
        }
    }

    /// A single run.
    pub fn once(run_at: TimestampMillis) -> (r: ScheduleSpec)
        ensures
            r == (ScheduleSpec::Once { run_at }),
    {
        ScheduleSpec::Once { run_at }
    }

    /// A run at every interval, given in milliseconds.
    pub fn interval(start_at: TimestampMillis, interval: u128) -> (r: Result<
        ScheduleSpec,
        AutomationError,
    >)
        ensures
            match r {
                Ok(s) => 0 < interval <= u64::MAX && s == (ScheduleSpec::Interval {
                    start_at,
                    interval_millis: interval as u64,
                }),
                Err(e) => !(0 < interval <= u64::MAX) && e == AutomationError::InvalidInterval,
            },
    {
        if interval == 0 || interval > u64::MAX as u128 {
            return Err(AutomationError::InvalidInterval);
        }
        Ok(ScheduleSpec::Interval { start_at, interval_millis: interval as u64 })
    }

    /// The next time after `timestamp` at which the job runs.
    pub fn next_after(self, timestamp: TimestampMillis, enabled: bool) -> (r: Option<
        TimestampMillis,
    >)
        requires
            enabled ==> (self matches ScheduleSpec::Interval { start_at, interval_millis } ==> (
            start_at.value <= timestamp.value ==> interval_millis > 0 && self.passed(timestamp)
                < u64::MAX)),
        ensures
            r == self.following(timestamp, enabled),
    {
        if !enabled {
            return None;
        }
        match self {
            ScheduleSpec::Once { run_at } => if timestamp.value < run_at.value {
                Some(run_at)
            } else {
                None
            },
            ScheduleSpec::Interval { start_at, interval_millis } => {
                if timestamp.value < start_at.value {
                    return Some(start_at);
                }
                let elapsed = timestamp.value - start_at.value;
                let n = elapsed / interval_millis + 1;
                proof {
                    assert(n == self.passed(timestamp) + 1);
                }
                let offset = match n.checked_mul(interval_millis) {
                    Some(offset) => offset,
                    None => {
                        return None;
                    },
                };
                match start_at.value.checked_add(offset) {
                    Some(next) => Some(TimestampMillis::new(next)),
                    None => None,
                }
            },
        }
    }
}

/// The length of `k` intervals.
pub open spec fn steps(k: nat, interval: u64) -> int {
    k * interval
}

/// The next time is after the given one and a time at which the job runs, and
/// no such time lies between.
pub proof fn next_run_is_the_first(s: ScheduleSpec, t: TimestampMillis, other: int)
    requires
        s matches ScheduleSpec::Interval { interval_millis, .. } ==> interval_millis > 0,
    ensures
        s.following(t, true) matches Some(n) ==> {
            &&& t.value < n.value
            &&& s.is_due(n.value as int)
            &&& s.is_due(other) && t.value < other ==> n.value <= other
        },
        !(s.following(t, true) is Some) && s.is_due(other) && t.value < other ==> other > u64::MAX,
        s.following(t, false) is None,
{
    if let ScheduleSpec::Interval { start_at, interval_millis } = s {
        let d = interval_millis as int;
        let zero: nat = 0;
        assert(steps(zero, interval_millis) == 0) by (nonlinear_arith)
            requires
                steps(zero, interval_millis) == zero * interval_millis,
                zero == 0,
        ;
        if t.value >= start_at.value {
            let e = t.value as int - start_at.value as int;
            let q = e / d;
            lemma_fundamental_div_mod(e, d);
            lemma_mod_bound(e, d);
            assert(q >= 0) by (nonlinear_arith)
                requires
                    q == e / d,
                    e >= 0,
                    d > 0,
            ;
            let k = (q + 1) as nat;
            assert(steps(k, interval_millis) == d * q + d) by (nonlinear_arith)
                requires
                    steps(k, interval_millis) == k * interval_millis,
                    k == q + 1,
                    d == interval_millis,
            ;
            if s.is_due(other) && t.value < other {
                let m = choose|m: nat| other == start_at.value + #[trigger] steps(m, interval_millis);
                assert(m >= q + 1) by (nonlinear_arith)
                    requires
                        start_at.value + m * interval_millis > t.value,
                        t.value - start_at.value == e,
                        e == d * q + e % d,
                        0 <= e % d,
                        d == interval_millis,
                        d > 0,
                        q >= 0,
                ;
                assert(m * interval_millis >= d * q + d) by (nonlinear_arith)
                    requires
                        m >= q + 1,
                        d == interval_millis,
                        d > 0,
                ;
            }
        } else {
            if s.is_due(other) {
                let m = choose|m: nat| other == start_at.value + #[trigger] steps(m, interval_millis);
                assert(m * interval_millis >= 0) by (nonlinear_arith);
            }
        }
    }
}

/// A principal that acts for a service.
pub fn service_principal(subject: String) -> (r: Result<PrincipalId, IdentityError>)
    ensures
        match r {
            Ok(p) => plain_text(subject@, 512) && p@ == (PrincipalView {
                provider: "service"@,
                subject: subject@,
            }),
            Err(e) => !plain_text(subject@, 512) && (e matches IdentityError::InvalidPart { field }
                && field@ == "subject"@),
        },
{
    proof {
        reveal_strlit("service");
        bytes_are_bounded("service"@);
        assert(plain_text("service"@, 512));
    }
    PrincipalId::new("service".to_owned(), subject)
}

/// The next run of a job that repeats falls on its grid, which starts at the
/// start and goes in whole intervals: it is the start itself before that, and
/// otherwise comes after `t` by one interval at most.
pub proof fn runs_fall_on_the_grid(start_at: TimestampMillis, interval: u64, t: TimestampMillis)
    requires
        interval > 0,
    ensures
        ({
            let s = ScheduleSpec::Interval { start_at, interval_millis: interval };
            &&& t.value < start_at.value ==> s.following(t, true) == Some(start_at)
            &&& t.value >= start_at.value ==> {
                &&& s.following(t, true) matches Some(n) ==> {
                    &&& t.value < n.value <= t.value + interval
                    &&& (n.value - start_at.value) % (interval as int) == 0
                }
                &&& s.following(t, true) is None ==> t.value + interval > u64::MAX
            }
        }),
{
    let s = ScheduleSpec::Interval { start_at, interval_millis: interval };
    if t.value >= start_at.value {
        let gone = t.value - start_at.value;
        let i = interval as int;
        let k = gone / i;
        vstd::arithmetic::div_mod::lemma_fundamental_div_mod(gone, i);
        vstd::arithmetic::div_mod::lemma_mod_bound(gone, i);
        vstd::arithmetic::div_mod::lemma_div_pos_is_pos(gone, i);
        assert(i * k == k * i) by (nonlinear_arith);
        assert((k + 1) * i == k * i + i) by (nonlinear_arith);
        let next = start_at.value + steps((k + 1) as nat, interval);
        assert(next == start_at.value + k * i + i);
        vstd::arithmetic::div_mod::lemma_mod_multiples_basic(k + 1, i);
        assert((next - start_at.value) % i == 0);
    }
}

} // verus!
