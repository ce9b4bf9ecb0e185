//! Replay protection. Each nonce is honoured once while what it protects is
//! alive, and is forgotten afterwards, so that the store stays bounded.

use crate::ordered::{lookup, lookup_stands};
use crate::text::{byte_len, concat, str_byte_len, str_eq, to_chars};
use vstd::prelude::*;

verus! {

/// Why a nonce is refused.
#[derive(Clone, Debug, PartialEq, Eq)]
pub enum NonceError {
    Replay(String),
    Invalid,
}

/// The model of a `NonceError`.
pub enum NonceErrorView {
    Replay(Seq<char>),
    Invalid,
}

impl View for NonceError {
    type V = NonceErrorView;

    open spec fn view(&self) -> NonceErrorView {
        match *self {
            NonceError::Replay(n) => NonceErrorView::Replay(n@),
            NonceError::Invalid => NonceErrorView::Invalid,
        }
    }
}

impl NonceErrorView {
    /// The message of the error.
    pub open spec fn message(self) -> Seq<char> {
        match self {
            NonceErrorView::Replay(n) => "nonce replay detected: "@ + n,
            NonceErrorView::Invalid =>
                "invalid nonce: must be 1-256 printable ASCII characters"@,
        }
    }
}

impl NonceError {
    /// The message of the error.
    pub fn message(&self) -> (r: String)
        ensures
            r@ == self@.message(),
    {
        match self {
            NonceError::Replay(n) => concat("nonce replay detected: ", n.as_str()),
            NonceError::Invalid =>
                "invalid nonce: must be 1-256 printable ASCII characters".to_owned(),
        }
    }
}

/// 1 to 256 printable ASCII characters other than space.
pub open spec fn valid_nonce(n: Seq<char>) -> bool {
    0 < n.len() && byte_len(n) <= 256 && forall|i: int|
        0 <= i < n.len() ==> 0x21 <= (#[trigger] n[i]) as int <= 0x7e
}

fn is_valid_nonce(n: &str) -> (r: bool)
    ensures
        r == valid_nonce(n@),
{
    if n.is_empty() || str_byte_len(n) > 256 {
        return false;
    }
    let c = to_chars(n);
    let mut i: usize = 0;
    while i < c.len()
        invariant
            i <= c@.len(),
            c@ == n@,
            forall|k: int| 0 <= k < i ==> 0x21 <= (#[trigger] c@[k]) as int <= 0x7e,
        decreases c@.len() - i,
    {
        let x = c[i];
        if x < '!' || x > '~' {
            proof {
                assert(n@[i as int] == x);
            }
            return false;
        }
        i += 1;
    }
    true
}

/// A sum that stops at the bounds of 64 bits.
pub open spec fn saturating_sum(a: int, b: int) -> int {
    if a + b > i64::MAX {
        i64::MAX as int
    } else if a + b < i64::MIN {
        i64::MIN as int
    } else {
        a + b
    }
}

/// The sum of two numbers, stopped at the bounds of 64 bits.
pub fn saturating_add(a: i64, b: i64) -> (r: i64)
    ensures
        r == saturating_sum(a as int, b as int),
{
    let s: i128 = a as i128 + b as i128;
    if s > 0x7fff_ffff_ffff_ffff {
        i64::MAX
    } else if s < -0x8000_0000_0000_0000 {
        i64::MIN
    } else {
        s as i64
    }
}

/// The difference of two numbers, stopped at the bounds of 64 bits.
pub fn saturating_sub(a: i64, b: i64) -> (r: i64)
    ensures
        r == saturating_sum(a as int, -(b as int)),
{
    let s: i128 = a as i128 - b as i128;
    if s > 0x7fff_ffff_ffff_ffff {
        i64::MAX
    } else if s < -0x8000_0000_0000_0000 {
        i64::MIN
    } else {
        s as i64
    }
}

/// The nonces that are honoured, each with the time at which it expires.
#[derive(Debug)]
pub struct NonceStore {
    records: Vec<(String, i64)>,
}

/// The model of a store: nonces with their expiry.
pub type NoncesView = Seq<(Seq<char>, i64)>;

impl View for NonceStore {
    type V = NoncesView;

    closed spec fn view(&self) -> NoncesView {
        self.records@.map_values(|r: (String, i64)| (r.0@, r.1))
    }
}

/// The records that have not expired.
pub open spec fn alive(s: NoncesView, now_ms: i64) -> NoncesView
    decreases s.len(),
{
    if s.len() == 0 {
        s
    } else if now_ms < s.last().1 {
        alive(s.drop_last(), now_ms).push(s.last())
    } else {
        alive(s.drop_last(), now_ms)
    }
}

/// The records of other nonces.
pub open spec fn without(s: NoncesView, nonce: Seq<char>) -> NoncesView
    decreases s.len(),
{
    if s.len() == 0 {
        s
    } else if s.last().0 != nonce {
        without(s.drop_last(), nonce).push(s.last())
    } else {
        without(s.drop_last(), nonce)
    }
}

/// The store after a nonce was presented, and the answer. A nonce whose record
/// has expired is fresh. Expired records are dropped whenever the number of
/// records is a multiple of 1024.
pub open spec fn presented(s: NoncesView, nonce: Seq<char>, now_ms: i64, ttl_ms: i64) -> (
    NoncesView,
    Result<(), NonceErrorView>,
) {
    if !valid_nonce(nonce) {
        (s, Err(NonceErrorView::Invalid))
    } else if lookup(s, nonce) matches Some(expiry) && now_ms < expiry {
        (s, Err(NonceErrorView::Replay(nonce)))
    } else {
        let kept = if s.len() % 1024 == 0 {
            alive(s, now_ms)
        } else {
            s
        };
        (
            without(kept, nonce).push(
                (nonce, saturating_sum(now_ms as int, ttl_ms as int) as i64),
            ),
            Ok(()),
        )
    }
}

/// The model of an answer.
pub open spec fn nonce_outcome(r: Result<(), NonceError>) -> Result<(), NonceErrorView> {
    match r {
        Ok(_) => Ok(()),
        Err(e) => Err(e@),
    }
}

impl NonceStore {
    /// The empty store.
    pub fn new() -> (r: NonceStore)
        ensures
            r@ == Seq::<(Seq<char>, i64)>::empty(),
    {
        let r = NonceStore { records: Vec::new() };
        proof {
            assert(r@ =~= Seq::<(Seq<char>, i64)>::empty());
        }
        r
    }

    fn find(&self, nonce: &str) -> (r: Option<i64>)
        ensures
            r == lookup(self@, nonce@),
    {
        let mut i: usize = self.records.len();
        proof {
            assert(self@.take(i as int) =~= self@);
        }
        while i > 0
            invariant
                i <= self.records@.len(),
                self@.len() == self.records@.len(),
                lookup(self@, nonce@) == lookup(self@.take(i as int), nonce@),
            decreases i,
        {
            proof {
                assert(self@.take(i as int).drop_last() =~= self@.take(i - 1));
                assert(self@.take(i as int).last() == self@[i - 1]);
                assert(self@[i - 1].0 == self.records@[i - 1].0@);
            }
            if str_eq(self.records[i - 1].0.as_str(), nonce) {
                return Some(self.records[i - 1].1);
            }
            i -= 1;
        }
        None
    }

    fn keep_alive(&mut self, now_ms: i64)
        ensures
            final(self)@ == alive(old(self)@, now_ms),
    {
        let ghost before = self@;
        let mut kept: Vec<(String, i64)> = Vec::new();
        let mut i: usize = 0;
        proof {
            assert(before.take(0) =~= Seq::<(Seq<char>, i64)>::empty());
            assert(kept@.map_values(|r: (String, i64)| (r.0@, r.1)) =~= Seq::<
                (Seq<char>, i64),
            >::empty());
        }
        while i < self.records.len()
            invariant
                i <= self.records@.len(),
                before == self@,
                *self == *old(self),
                before.len() == self.records@.len(),
                kept@.map_values(|r: (String, i64)| (r.0@, r.1)) == alive(
                    before.take(i as int),
                    now_ms,
                ),
            decreases self.records@.len() - i,
        {
            let ghost done = kept@.map_values(|r: (String, i64)| (r.0@, r.1));
            proof {
                assert(before.take(i + 1).drop_last() =~= before.take(i as int));
                assert(before.take(i + 1).last() == before[i as int]);
                assert(before[i as int] == (self.records@[i as int].0@, self.records@[i as int].1));
            }
            if now_ms < self.records[i].1 {
                kept.push((self.records[i].0.clone(), self.records[i].1));
                proof {
                    assert(kept@.map_values(|r: (String, i64)| (r.0@, r.1)) =~= done.push(
                        before[i as int],
                    ));
                }
            }
            i += 1;
        }
        proof {
            assert(before.take(i as int) =~= before);
        }
        self.records = kept;
    }

    fn drop_nonce(&mut self, nonce: &str)
        ensures
            final(self)@ == without(old(self)@, nonce@),
    {
        let ghost before = self@;
        let mut kept: Vec<(String, i64)> = Vec::new();
        let mut i: usize = 0;
        proof {
            assert(before.take(0) =~= Seq::<(Seq<char>, i64)>::empty());
            assert(kept@.map_values(|r: (String, i64)| (r.0@, r.1)) =~= Seq::<
                (Seq<char>, i64),
            >::empty());
        }
        while i < self.records.len()
            invariant
                i <= self.records@.len(),
                before == self@,
                *self == *old(self),
                before.len() == self.records@.len(),
                kept@.map_values(|r: (String, i64)| (r.0@, r.1)) == without(
                    before.take(i as int),
                    nonce@,
                ),
            decreases self.records@.len() - i,
        {
            let ghost done = kept@.map_values(|r: (String, i64)| (r.0@, r.1));
            proof {
                assert(before.take(i + 1).drop_last() =~= before.take(i as int));
                assert(before.take(i + 1).last() == before[i as int]);
                assert(before[i as int] == (self.records@[i as int].0@, self.records@[i as int].1));
            }
            if !str_eq(self.records[i].0.as_str(), nonce) {
                kept.push((self.records[i].0.clone(), self.records[i].1));
                proof {
                    assert(kept@.map_values(|r: (String, i64)| (r.0@, r.1)) =~= done.push(
                        before[i as int],
                    ));
                }
            }
            i += 1;
        }
        proof {
            assert(before.take(i as int) =~= before);
        }
        self.records = kept;
    }

    /// Records a nonce for `ttl_ms` milliseconds, or refuses it as a replay.
    pub fn check_and_insert(&mut self, nonce: &str, now_ms: i64, ttl_ms: i64) -> (r: Result<
        (),
        NonceError,
    >)
        ensures
            (final(self)@, nonce_outcome(r)) == presented(old(self)@, nonce@, now_ms, ttl_ms),
    {
        if !is_valid_nonce(nonce) {
            return Err(NonceError::Invalid);
        }
        if let Some(expiry) = self.find(nonce) {
            if now_ms < expiry {
                return Err(NonceError::Replay(nonce.to_owned()));
            }
        }
        if self.records.len() % 1024 == 0 {
            self.keep_alive(now_ms);
        }
        self.drop_nonce(nonce);
        let ghost kept = self@;
        let expiry = saturating_add(now_ms, ttl_ms);
        self.records.push((nonce.to_owned(), expiry));
        proof {
            assert(self@ =~= kept.push((nonce@, expiry)));
        }
        Ok(())
    }

    /// The number of records.
    pub fn len(&self) -> (r: usize)
        ensures
            r == self@.len(),
    {
        self.records.len()
    }

    /// Whether there are no records.
    pub fn is_empty(&self) -> (r: bool)
        ensures
            r == (self@.len() == 0),
    {
        self.records.len() == 0
    }

    /// Drops the expired records and gives their number.
    pub fn purge_expired(&mut self, now_ms: i64) -> (r: usize)
        ensures
            final(self)@ == alive(old(self)@, now_ms),
            r == old(self)@.len() - final(self)@.len(),
    {
        let before: usize = self.records.len();
        proof {
            alive_records(self@, now_ms);
        }
        self.keep_alive(now_ms);
        before - self.records.len()
    }
}

impl Default for NonceStore {
    fn default() -> (r: NonceStore)
        ensures
            r@ == Seq::<(Seq<char>, i64)>::empty(),
    {
        NonceStore::new()
    }
}

proof fn alive_records(s: NoncesView, now_ms: i64)
    ensures
        alive(s, now_ms).len() <= s.len(),
    decreases s.len(),
{
    if s.len() > 0 {
        alive_records(s.drop_last(), now_ms);
    }
}

/// No nonce has two records.
pub open spec fn one_record_each(s: NoncesView) -> bool {
    forall|i: int, j: int|
        #![trigger s[i], s[j]]
        0 <= i < j < s.len() ==> s[i].0 != s[j].0
}

proof fn alive_keeps(s: NoncesView, now_ms: i64, nonce: Seq<char>)
    requires
        one_record_each(s),
    ensures
        lookup(s, nonce) matches Some(e) && now_ms < e ==> lookup(alive(s, now_ms), nonce)
            == lookup(s, nonce),
        one_record_each(alive(s, now_ms)),
        forall|k: int| 0 <= k < alive(s, now_ms).len() ==> s.contains(
            #[trigger] alive(s, now_ms)[k],
        ),
    decreases s.len(),
{
    if s.len() > 0 {
        let head = s.drop_last();
        assert(one_record_each(head)) by {
            assert forall|i: int, j: int|
                #![trigger head[i], head[j]]
                0 <= i < j < head.len() implies head[i].0 != head[j].0 by {
                assert(s[i].0 != s[j].0);
            }
        }
        alive_keeps(head, now_ms, nonce);
        let kept = alive(head, now_ms);
        assert forall|k: int| 0 <= k < kept.len() implies s.contains(#[trigger] kept[k]) && kept[k].0
            != s.last().0 by {
            assert(head.contains(kept[k]));
            let m = choose|m: int| 0 <= m < head.len() && head[m] == kept[k];
            assert(s[m] == kept[k]);
            assert(s[m].0 != s[s.len() - 1].0);
        }
        if now_ms < s.last().1 {
            let all = kept.push(s.last());
            assert(all.drop_last() =~= kept);
            assert forall|i: int, j: int|
                #![trigger all[i], all[j]]
                0 <= i < j < all.len() implies all[i].0 != all[j].0 by {
                if j < kept.len() {
                    assert(kept[i].0 != kept[j].0);
                }
            }
            assert forall|k: int| 0 <= k < all.len() implies s.contains(#[trigger] all[k]) by {
                if k < kept.len() {
                    assert(s.contains(kept[k]));
                } else {
                    assert(s[s.len() - 1] == all[k]);
                }
            }
        }
    }
}

proof fn without_keeps(s: NoncesView, dropped: Seq<char>, nonce: Seq<char>)
    requires
        one_record_each(s),
    ensures
        nonce != dropped ==> lookup(without(s, dropped), nonce) == lookup(s, nonce),
        one_record_each(without(s, dropped)),
        forall|k: int|
            0 <= k < without(s, dropped).len() ==> s.contains(#[trigger] without(s, dropped)[k])
                && without(s, dropped)[k].0 != dropped,
    decreases s.len(),
{
    if s.len() > 0 {
        let head = s.drop_last();
        assert(one_record_each(head)) by {
            assert forall|i: int, j: int|
                #![trigger head[i], head[j]]
                0 <= i < j < head.len() implies head[i].0 != head[j].0 by {
                assert(s[i].0 != s[j].0);
            }
        }
        without_keeps(head, dropped, nonce);
        let kept = without(head, dropped);
        assert forall|k: int| 0 <= k < kept.len() implies s.contains(#[trigger] kept[k]) && kept[k].0
            != s.last().0 by {
            assert(head.contains(kept[k]));
            let m = choose|m: int| 0 <= m < head.len() && head[m] == kept[k];
            assert(s[m] == kept[k]);
            assert(s[m].0 != s[s.len() - 1].0);
        }
        if s.last().0 != dropped {
            let all = kept.push(s.last());
            assert(all.drop_last() =~= kept);
            assert forall|i: int, j: int|
                #![trigger all[i], all[j]]
                0 <= i < j < all.len() implies all[i].0 != all[j].0 by {
                if j < kept.len() {
                    assert(kept[i].0 != kept[j].0);
                }
            }
            assert forall|k: int| 0 <= k < all.len() implies s.contains(#[trigger] all[k])
                && all[k].0 != dropped by {
                if k < kept.len() {
                    assert(s.contains(kept[k]));
                } else {
                    assert(s[s.len() - 1] == all[k]);
                }
            }
        }
    }
}

/// A store holds at most one record of each nonce, whatever is presented to it.
pub proof fn presenting_keeps_one_record_each(
    s: NoncesView,
    nonce: Seq<char>,
    now_ms: i64,
    ttl_ms: i64,
)
    requires
        one_record_each(s),
    ensures
        one_record_each(presented(s, nonce, now_ms, ttl_ms).0),
{
    alive_keeps(s, now_ms, nonce);
    let kept = if s.len() % 1024 == 0 {
        alive(s, now_ms)
    } else {
        s
    };
    without_keeps(kept, nonce, nonce);
    let rest = without(kept, nonce);
    let all = presented(s, nonce, now_ms, ttl_ms).0;
    if presented(s, nonce, now_ms, ttl_ms).1 is Ok {
        assert forall|i: int, j: int|
            #![trigger all[i], all[j]]
            0 <= i < j < all.len() implies all[i].0 != all[j].0 by {
            if j < rest.len() {
                assert(rest[i].0 != rest[j].0);
            } else {
                assert(rest[i].0 != nonce);
            }
        }
    }
}

/// A nonce that was accepted is refused as a replay until it expires.
pub proof fn accepted_nonce_is_refused_until_it_expires(
    s: NoncesView,
    nonce: Seq<char>,
    now_ms: i64,
    ttl_ms: i64,
    later_ms: i64,
    later_ttl_ms: i64,
)
    requires
        presented(s, nonce, now_ms, ttl_ms).1 is Ok,
        later_ms < saturating_sum(now_ms as int, ttl_ms as int),
    ensures
        presented(presented(s, nonce, now_ms, ttl_ms).0, nonce, later_ms, later_ttl_ms) == (
            presented(s, nonce, now_ms, ttl_ms).0,
            Err::<(), NonceErrorView>(NonceErrorView::Replay(nonce)),
        ),
{
    let after = presented(s, nonce, now_ms, ttl_ms).0;
    assert(after.last() == (nonce, saturating_sum(now_ms as int, ttl_ms as int) as i64));
}

/// A record that is alive survives whatever else is presented.
pub proof fn live_records_survive(
    s: NoncesView,
    nonce: Seq<char>,
    other: Seq<char>,
    now_ms: i64,
    ttl_ms: i64,
)
    requires
        one_record_each(s),
        nonce != other,
        lookup(s, nonce) matches Some(e) && now_ms < e,
    ensures
        lookup(presented(s, other, now_ms, ttl_ms).0, nonce) == lookup(s, nonce),
{
    alive_keeps(s, now_ms, nonce);
    let kept = if s.len() % 1024 == 0 {
        alive(s, now_ms)
    } else {
        s
    };
    without_keeps(kept, other, nonce);
    let after = presented(s, other, now_ms, ttl_ms).0;
    if presented(s, other, now_ms, ttl_ms).1 is Ok {
        assert(after.drop_last() =~= without(kept, other));
    }
}

/// One presentation of a nonce.
pub struct NonceCall {
    pub nonce: Seq<char>,
    pub now_ms: i64,
    pub ttl_ms: i64,
}

/// The store after some presentations.
pub open spec fn store_after(calls: Seq<NonceCall>) -> NoncesView
    decreases calls.len(),
{
    if calls.len() == 0 {
        Seq::empty()
    } else {
        let c = calls.last();
        presented(store_after(calls.drop_last()), c.nonce, c.now_ms, c.ttl_ms).0
    }
}

/// When the last presentation of `nonce` that was accepted expires.
pub open spec fn last_accepted(calls: Seq<NonceCall>, nonce: Seq<char>) -> Option<int>
    decreases calls.len(),
{
    if calls.len() == 0 {
        None
    } else {
        let c = calls.last();
        let before = store_after(calls.drop_last());
        if c.nonce == nonce && presented(before, c.nonce, c.now_ms, c.ttl_ms).1 is Ok {
            Some(saturating_sum(c.now_ms as int, c.ttl_ms as int))
        } else {
            last_accepted(calls.drop_last(), nonce)
        }
    }
}

/// The clock never goes back.
pub open spec fn times_ascend(calls: Seq<NonceCall>) -> bool {
    forall|i: int, j: int|
        #![trigger calls[i], calls[j]]
        0 <= i <= j < calls.len() ==> calls[i].now_ms <= calls[j].now_ms
}

/// A record that is not kept alive is no longer found.
proof fn dead_records_go(s: NoncesView, now_ms: i64, nonce: Seq<char>)
    requires
        one_record_each(s),
    ensures
        lookup(alive(s, now_ms), nonce) matches Some(e) ==> lookup(s, nonce) == Some(e) && now_ms
            < e,
    decreases s.len(),
{
    if s.len() > 0 {
        let head = s.drop_last();
        assert(one_record_each(head)) by {
            assert forall|i: int, j: int|
                #![trigger head[i], head[j]]
                0 <= i < j < head.len() implies head[i].0 != head[j].0 by {
                assert(s[i].0 != s[j].0);
            }
        }
        dead_records_go(head, now_ms, nonce);
        alive_keeps(head, now_ms, nonce);
        let kept = alive(head, now_ms);
        if now_ms < s.last().1 {
            assert(kept.push(s.last()).drop_last() =~= kept);
        } else if s.last().0 == nonce && lookup(kept, nonce) is Some {
            lookup_stands(head, nonce);
            let m = choose|m: int|
                0 <= m < head.len() && #[trigger] head[m] == (nonce, lookup(head, nonce)->0);
            assert(s[m].0 != s[s.len() - 1].0);
        }
    }
}

/// The store knows the last accepted presentation of a nonce, unless that has
/// expired.
proof fn history_is_known(calls: Seq<NonceCall>, nonce: Seq<char>)
    requires
        times_ascend(calls),
    ensures
        one_record_each(store_after(calls)),
        match lookup(store_after(calls), nonce) {
            Some(e) => last_accepted(calls, nonce) == Some(e as int),
            None => last_accepted(calls, nonce) matches Some(e) ==> calls.len() > 0 && e
                <= calls.last().now_ms,
        },
    decreases calls.len(),
{
    if calls.len() > 0 {
        let rest = calls.drop_last();
        let c = calls.last();
        assert forall|i: int, j: int|
            #![trigger rest[i], rest[j]]
            0 <= i <= j < rest.len() implies rest[i].now_ms <= rest[j].now_ms by {
            assert(calls[i].now_ms <= calls[j].now_ms);
        }
        history_is_known(rest, nonce);
        if rest.len() > 0 {
            assert(calls[rest.len() - 1].now_ms <= calls[calls.len() - 1].now_ms);
            assert(rest.last() == calls[rest.len() - 1]);
        }
        let s = store_after(rest);
        presenting_keeps_one_record_each(s, c.nonce, c.now_ms, c.ttl_ms);
        if presented(s, c.nonce, c.now_ms, c.ttl_ms).1 is Ok {
            let kept = if s.len() % 1024 == 0 {
                alive(s, c.now_ms)
            } else {
                s
            };
            alive_keeps(s, c.now_ms, nonce);
            dead_records_go(s, c.now_ms, nonce);
            without_keeps(kept, c.nonce, nonce);
            let all = store_after(calls);
            assert(all.drop_last() =~= without(kept, c.nonce));
        }
    }
}

/// Over a whole history of presentations with a clock that never goes back, a
/// nonce is refused as malformed exactly if it is, and as a replay exactly if
/// its last accepted presentation has not expired. Every other one is accepted
/// and honoured until it expires. A refusal changes nothing.
pub proof fn nonces_are_honoured_once(calls: Seq<NonceCall>, c: NonceCall)
    requires
        times_ascend(calls),
        calls.len() > 0 ==> calls.last().now_ms <= c.now_ms,
    ensures
        ({
            let (after, r) = presented(store_after(calls), c.nonce, c.now_ms, c.ttl_ms);
            let live = last_accepted(calls, c.nonce) matches Some(e) && c.now_ms < e;
            &&& r == Err::<(), NonceErrorView>(NonceErrorView::Invalid) <==> !valid_nonce(c.nonce)
            &&& r == Err::<(), NonceErrorView>(NonceErrorView::Replay(c.nonce)) <==> valid_nonce(
                c.nonce,
            ) && live
            &&& r is Ok <==> valid_nonce(c.nonce) && !live
            &&& r is Ok ==> last_accepted(calls.push(c), c.nonce) == Some(
                saturating_sum(c.now_ms as int, c.ttl_ms as int),
            )
            &&& r is Err ==> after == store_after(calls)
        }),
{
    history_is_known(calls, c.nonce);
    assert(calls.push(c).drop_last() =~= calls);
}

/// No presentation drops a nonce that has not expired.
pub proof fn unexpired_nonces_are_kept(calls: Seq<NonceCall>, c: NonceCall, nonce: Seq<char>)
    requires
        times_ascend(calls),
        calls.len() > 0 ==> calls.last().now_ms <= c.now_ms,
        lookup(store_after(calls), nonce) matches Some(e) && c.now_ms < e,
    ensures
        lookup(store_after(calls.push(c)), nonce) == lookup(store_after(calls), nonce),
{
    history_is_known(calls, nonce);
    assert(calls.push(c).drop_last() =~= calls);
    if nonce != c.nonce {
        live_records_survive(store_after(calls), nonce, c.nonce, c.now_ms, c.ttl_ms);
    }
}

} // verus!
