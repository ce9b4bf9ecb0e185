//! Questions about what was recorded: from an action to its lease, from a lease
//! to its ancestors.

use crate::json::{Json, JsonView};
use crate::kernel_audit::chain::{AuditEvent, EventView};
use crate::lease::session::LeaseResolver;
use crate::lists::views;
use crate::ordered::lookup;
use crate::table::Table;
use crate::text::{contains_str, str_eq, texts};
use vstd::prelude::*;

verus! {

/// The most ancestors of a lease that are followed.
pub const MAX_ANCESTORS: usize = 128;

/// The text under a key of an object.
pub open spec fn text_member(v: JsonView, key: Seq<char>) -> Option<Seq<char>> {
    match v {
        JsonView::Object(m) => match lookup(m, key) {
            Some(JsonView::Str(s)) => Some(s),
            _ => None,
        },
        _ => None,
    }
}

fn find_text<'a>(v: &'a Json, key: &str) -> (r: Option<&'a str>)
    ensures
        match r {
            Some(s) => text_member(v@, key@) == Some(s@),
            None => text_member(v@, key@) is None,
        },
{
    match v {
        Json::Object(m) => {
            let ghost all = v@->Object_0;
            let mut n: usize = m.len();
            proof {
                assert(all.take(n as int) =~= all);
            }
            while n > 0
                invariant
                    n <= m@.len(),
                    v matches Json::Object(w) && w == m,
                    v@ == JsonView::Object(all),
                    all.len() == m@.len(),
                    lookup(all, key@) == lookup(all.take(n as int), key@),
                decreases n,
            {
                let ghost head = all.take(n as int);
                proof {
                    assert(head.drop_last() =~= all.take(n - 1));
                    assert(head.last() == all[n - 1]);
                    assert(all[n - 1] == (m@[n - 1].0@, m@[n - 1].1@));
                }
                if str_eq(m[n - 1].0.as_str(), key) {
                    return match &m[n - 1].1 {
                        Json::Str(s) => Some(s.as_str()),
                        _ => None,
                    };
                }
                n -= 1;
            }
            proof {
                assert(all.take(0).len() == 0);
            }
            None
        },
        _ => None,
    }
}

/// What is asked for.
enum Wanted<'q> {
    Action(&'q str),
    Actor(&'q str),
    Lease(&'q str),
    Leases(&'q Vec<String>),
    Approval(&'q str),
    Range(u64, u64),
}

/// The model of what is asked for.
pub enum Question {
    Action(Seq<char>),
    Actor(Seq<char>),
    Lease(Seq<char>),
    Leases(Seq<Seq<char>>),
    Approval(Seq<char>),
    Range(u64, u64),
}

impl<'q> Wanted<'q> {
    spec fn question(&self) -> Question {
        match *self {
            Wanted::Action(s) => Question::Action(s@),
            Wanted::Actor(s) => Question::Actor(s@),
            Wanted::Lease(s) => Question::Lease(s@),
            Wanted::Leases(v) => Question::Leases(texts(v@)),
            Wanted::Approval(s) => Question::Approval(s@),
            Wanted::Range(a, b) => Question::Range(a, b),
        }
    }
}

impl Question {
    /// The event is one that is asked for.
    pub open spec fn hits(self, e: EventView) -> bool {
        match self {
            Question::Action(s) => e.action_digest == s,
            Question::Actor(s) => e.actor == s,
            Question::Lease(s) => text_member(e.details, "lease_id"@) == Some(s),
            Question::Leases(v) => text_member(e.details, "lease_id"@) matches Some(s)
                && v.contains(s),
            Question::Approval(s) => text_member(e.details, "approval_id"@) == Some(s),
            Question::Range(a, b) => a <= e.seq <= b,
        }
    }
}

/// The events, from `i` on, that are asked for, in their order.
pub open spec fn answers(events: Seq<EventView>, q: Question, i: int) -> Seq<EventView>
    decreases events.len() - i,
{
    if i < 0 || i >= events.len() {
        Seq::empty()
    } else if q.hits(events[i]) {
        Seq::<EventView>::empty().push(events[i]) + answers(events, q, i + 1)
    } else {
        answers(events, q, i + 1)
    }
}

/// The parent of a lease.
pub open spec fn parent_of<R: LeaseResolver>(leases: R, id: Seq<char>) -> Option<Seq<char>> {
    match leases.found(id) {
        Some(d) => d.parent_id,
        None => None,
    }
}

/// A lease and at most `fuel` of its ancestors, from the leaf to the root.
pub open spec fn ancestry<R: LeaseResolver>(leases: R, id: Seq<char>, fuel: nat) -> Seq<Seq<char>>
    decreases fuel,
{
    let here = Seq::<Seq<char>>::empty().push(id);
    if fuel == 0 {
        here
    } else {
        match parent_of(leases, id) {
            Some(p) => here + ancestry(leases, p, (fuel - 1) as nat),
            None => here,
        }
    }
}

/// Each action with the sequence number of the first event, from `i` on, that
/// names it, unless `so_far` holds it.
pub open spec fn indexed(events: Seq<EventView>, i: int, so_far: Map<Seq<char>, u64>) -> Map<
    Seq<char>,
    u64,
>
    decreases events.len() - i,
{
    if i < 0 || i >= events.len() {
        so_far
    } else {
        let e = events[i];
        indexed(
            events,
            i + 1,
            if e.action_digest.len() > 0 && !so_far.dom().contains(e.action_digest) {
                so_far.insert(e.action_digest, e.seq)
            } else {
                so_far
            },
        )
    }
}

/// Questions about some events.
pub struct AuditQueries<'a> {
    events: &'a [AuditEvent],
}

impl<'a> View for AuditQueries<'a> {
    type V = Seq<EventView>;

    closed spec fn view(&self) -> Seq<EventView> {
        views(self.events@)
    }
}

impl<'a> AuditQueries<'a> {
    /// Questions about the given events.
    pub fn new(events: &'a [AuditEvent]) -> (r: AuditQueries<'a>)
        ensures
            r@ == views(events@),
    {
        AuditQueries { events }
    }

    fn select(&self, w: &Wanted) -> (r: Vec<&'a AuditEvent>)
        ensures
            views(r@) == answers(self@, w.question(), 0),
    {
        let ghost all = self@;
        let ghost q = w.question();
        let mut out: Vec<&'a AuditEvent> = Vec::new();
        proof {
            assert(views(out@) + answers(all, q, 0) =~= answers(all, q, 0));
        }
        let mut i: usize = 0;
        while i < self.events.len()
            invariant
                i <= self.events@.len(),
                all == views(self.events@),
                q == w.question(),
                answers(all, q, 0) == views(out@) + answers(all, q, i as int),
            decreases self.events@.len() - i,
        {
            let e = &self.events[i];
            let ghost before = views(out@);
            proof {
                assert(all[i as int] == e@);
            }
            let hit = match w {
                Wanted::Action(s) => str_eq(e.action_digest.as_str(), s),
                Wanted::Actor(s) => str_eq(e.actor.as_str(), s),
                Wanted::Lease(s) => match find_text(&e.details, "lease_id") {
                    Some(t) => str_eq(t, s),
                    None => false,
                },
                Wanted::Leases(v) => match find_text(&e.details, "lease_id") {
                    Some(t) => contains_str(v, t),
                    None => false,
                },
                Wanted::Approval(s) => match find_text(&e.details, "approval_id") {
                    Some(t) => str_eq(t, s),
                    None => false,
                },
                Wanted::Range(a, b) => *a <= e.seq && e.seq <= *b,
            };
            if hit {
                out.push(e);
                proof {
                    assert(views(out@) =~= before.push(e@));
                    assert(before + answers(all, q, i as int) =~= views(out@) + answers(
                        all,
                        q,
                        i + 1,
                    ));
                }
            }
            i += 1;
        }
        proof {
            assert(views(out@) + answers(all, q, i as int) =~= views(out@));
        }
        out
    }

    /// The events of an action, in their order.
    pub fn events_for_action(&self, action_digest: &str) -> (r: Vec<&'a AuditEvent>)
        ensures
            views(r@) == answers(self@, Question::Action(action_digest@), 0),
    {
        self.select(&Wanted::Action(action_digest))
    }

    /// The events that an actor caused.
    pub fn events_for_actor(&self, actor: &str) -> (r: Vec<&'a AuditEvent>)
        ensures
            views(r@) == answers(self@, Question::Actor(actor@), 0),
    {
        self.select(&Wanted::Actor(actor))
    }

    /// The events whose details name a lease.
    pub fn events_for_lease(&self, lease_id: &str) -> (r: Vec<&'a AuditEvent>)
        ensures
            views(r@) == answers(self@, Question::Lease(lease_id@), 0),
    {
        self.select(&Wanted::Lease(lease_id))
    }

    /// The events whose details name a lease or one of its ancestors.
    pub fn events_for_lease_ancestry<R: LeaseResolver>(
        &self,
        leaf_lease_id: &str,
        leases: &R,
    ) -> (r: Vec<&'a AuditEvent>)
        ensures
            views(r@) == answers(
                self@,
                Question::Leases(ancestry(*leases, leaf_lease_id@, MAX_ANCESTORS as nat)),
                0,
            ),
    {
        let ghost whole = ancestry(*leases, leaf_lease_id@, MAX_ANCESTORS as nat);
        let mut ids: Vec<String> = Vec::new();
        let mut current = leaf_lease_id.to_owned();
        let mut fuel: usize = MAX_ANCESTORS;
        let mut last = false;
        proof {
            assert(texts(ids@) + whole =~= whole);
        }
        while !last
            invariant
                fuel <= MAX_ANCESTORS,
                !last ==> whole == texts(ids@) + ancestry(*leases, current@, fuel as nat),
                last ==> whole == texts(ids@),
            decreases fuel + if last { 0int } else { 1int },
        {
            let ghost before = texts(ids@);
            ids.push(current.clone());
            proof {
                assert(texts(ids@) =~= before.push(current@));
            }
            let parent = if fuel == 0 {
                None
            } else {
                match leases.lease(current.as_str()) {
                    Some(d) => d.parent_id,
                    None => None,
                }
            };
            match parent {
                Some(p) => {
                    proof {
                        let here = Seq::<Seq<char>>::empty().push(current@);
                        assert(before + (here + ancestry(*leases, p@, (fuel - 1) as nat))
                            =~= texts(ids@) + ancestry(*leases, p@, (fuel - 1) as nat));
                    }
                    current = p;
                    fuel -= 1;
                },
                None => {
                    proof {
                        assert(before + Seq::<Seq<char>>::empty().push(current@) =~= texts(ids@));
                    }
                    last = true;
                },
            }
        }
        self.select(&Wanted::Leases(&ids))
    }

    /// The events whose details name an approval.
    pub fn events_for_approval(&self, approval_id: &str) -> (r: Vec<&'a AuditEvent>)
        ensures
            views(r@) == answers(self@, Question::Approval(approval_id@), 0),
    {
        self.select(&Wanted::Approval(approval_id))
    }

    /// The events with sequence numbers in a range, both ends included.
    pub fn events_in_range(&self, from_seq: u64, to_seq: u64) -> (r: Vec<&'a AuditEvent>)
        ensures
            views(r@) == answers(self@, Question::Range(from_seq, to_seq), 0),
    {
        self.select(&Wanted::Range(from_seq, to_seq))
    }

    /// Each action with the sequence number of the first event that names it.
    pub fn action_index(&self) -> (r: Table<u64>)
        ensures
            r.wf(),
            r@ == indexed(self@, 0, Map::empty()),
    {
        let ghost all = self@;
        let mut t: Table<u64> = Table::new();
        let mut i: usize = 0;
        while i < self.events.len()
            invariant
                i <= self.events@.len(),
                all == views(self.events@),
                t.wf(),
                indexed(all, 0, Map::empty()) == indexed(all, i as int, t@),
            decreases self.events@.len() - i,
        {
            let e = &self.events[i];
            proof {
                assert(all[i as int] == e@);
            }
            if !e.action_digest.as_str().is_empty() && !t.contains_key(e.action_digest.as_str()) {
                t.insert(e.action_digest.clone(), e.seq);
            }
            i += 1;
        }
        t
    }
}

/// What is answered is what was recorded and asked for.
pub proof fn answers_are_recorded(events: Seq<EventView>, q: Question, i: int, k: int)
    requires
        0 <= i,
        0 <= k < answers(events, q, i).len(),
    ensures
        q.hits(answers(events, q, i)[k]),
        events.contains(answers(events, q, i)[k]),
    decreases events.len() - i,
{
    if i < events.len() {
        if q.hits(events[i]) {
            assert(events.contains(events[i]));
            if k > 0 {
                answers_are_recorded(events, q, i + 1, k - 1);
            }
        } else {
            answers_are_recorded(events, q, i + 1, k);
        }
    }
}

/// Every recorded event that is asked for is answered.
pub proof fn nothing_recorded_is_missed(events: Seq<EventView>, q: Question, i: int, m: int)
    requires
        0 <= i <= m < events.len(),
        q.hits(events[m]),
    ensures
        answers(events, q, i).contains(events[m]),
    decreases m - i,
{
    let rest = answers(events, q, i + 1);
    let all = answers(events, q, i);
    if i < m {
        nothing_recorded_is_missed(events, q, i + 1, m);
        let k = choose|k: int| 0 <= k < rest.len() && rest[k] == events[m];
        if q.hits(events[i]) {
            assert(all[k + 1] == events[m]);
        } else {
            assert(all[k] == events[m]);
        }
    } else {
        assert(all[0] == events[m]);
    }
}

/// The index names each action that some event names, with the number of the
/// first event that does, and no other.
pub proof fn the_index_names_the_first_event(
    events: Seq<EventView>,
    i: int,
    so_far: Map<Seq<char>, u64>,
    action: Seq<char>,
)
    requires
        0 <= i <= events.len(),
    ensures
        ({
            let all = indexed(events, i, so_far);
            &&& so_far.dom().contains(action) ==> all.dom().contains(action) && all[action]
                == so_far[action]
            &&& !so_far.dom().contains(action) && all.dom().contains(action) ==> exists|k: int|
                {
                    &&& i <= k < events.len() && (#[trigger] events[k]).action_digest == action
                    &&& action.len() > 0 && all[action] == events[k].seq
                    &&& forall|j: int| i <= j < k ==> (#[trigger] events[j]).action_digest != action
                }
            &&& !all.dom().contains(action) && action.len() > 0 ==> forall|k: int|
                i <= k < events.len() ==> (#[trigger] events[k]).action_digest != action
        }),
    decreases events.len() - i,
{
    if i < events.len() {
        let e = events[i];
        let next = if e.action_digest.len() > 0 && !so_far.dom().contains(e.action_digest) {
            so_far.insert(e.action_digest, e.seq)
        } else {
            so_far
        };
        the_index_names_the_first_event(events, i + 1, next, action);
        let all = indexed(events, i, so_far);
        if !so_far.dom().contains(action) && all.dom().contains(action) {
            if e.action_digest == action && action.len() > 0 {
                assert(all[action] == events[i].seq);
            } else {
                let k = choose|k: int|
                    {
                        &&& i + 1 <= k < events.len() && (#[trigger] events[k]).action_digest
                            == action
                        &&& action.len() > 0 && all[action] == events[k].seq
                        &&& forall|j: int|
                            i + 1 <= j < k ==> (#[trigger] events[j]).action_digest != action
                    };
                assert(events[k].action_digest == action);
                assert(forall|j: int| i <= j < k ==> (#[trigger] events[j]).action_digest != action);
            }
        }
    }
}

/// What each question asks for.
pub proof fn questions_ask_what_they_say(
    e: EventView,
    s: Seq<char>,
    v: Seq<Seq<char>>,
    from: u64,
    to: u64,
)
    ensures
        Question::Action(s).hits(e) <==> e.action_digest == s,
        Question::Actor(s).hits(e) <==> e.actor == s,
        Question::Range(from, to).hits(e) <==> from <= e.seq && e.seq <= to,
        Question::Lease(s).hits(e) <==> (e.details matches JsonView::Object(m) && lookup(
            m,
            "lease_id"@,
        ) == Some(JsonView::Str(s))),
        Question::Approval(s).hits(e) <==> (e.details matches JsonView::Object(m) && lookup(
            m,
            "approval_id"@,
        ) == Some(JsonView::Str(s))),
        Question::Leases(v).hits(e) <==> exists|i: int|
            0 <= i < v.len() && Question::Lease(#[trigger] v[i]).hits(e),
{
    if Question::Leases(v).hits(e) {
        let x = text_member(e.details, "lease_id"@)->0;
        let i = choose|i: int| 0 <= i < v.len() && v[i] == x;
        assert(Question::Lease(v[i]).hits(e));
    }
    if exists|i: int| 0 <= i < v.len() && Question::Lease(#[trigger] v[i]).hits(e) {
        let i = choose|i: int| 0 <= i < v.len() && Question::Lease(#[trigger] v[i]).hits(e);
        assert(v.contains(v[i]));
    }
}

/// An ancestry starts with the lease itself, and each lease in it is followed
/// by its parent. It ends only at a lease that is not known or has no parent, or
/// where it has become as long as it may.
pub proof fn ancestries_follow_the_parents<R: LeaseResolver>(
    leases: R,
    id: Seq<char>,
    fuel: nat,
    i: int,
)
    ensures
        ({
            let line = ancestry(leases, id, fuel);
            &&& 1 <= line.len() <= fuel + 1
            &&& line[0] == id
            &&& 0 <= i < line.len() - 1 ==> (leases.found(line[i]) matches Some(d) && d.parent_id
                == Some(line[i + 1]))
            &&& line.len() < fuel + 1 ==> (leases.found(line.last()) matches Some(d)
                ==> d.parent_id is None)
        }),
    decreases fuel,
{
    if fuel > 0 {
        if let Some(p) = parent_of(leases, id) {
            let rest = ancestry(leases, p, (fuel - 1) as nat);
            ancestries_follow_the_parents(leases, p, (fuel - 1) as nat, i - 1);
            let line = ancestry(leases, id, fuel);
            assert(line.len() == rest.len() + 1);
            assert(line.last() == rest.last());
            assert(line[1] == rest[0]);
            if 1 <= i < line.len() - 1 {
                assert(line[i] == rest[i - 1] && line[i + 1] == rest[i]);
            }
        }
    }
}

} // verus!
