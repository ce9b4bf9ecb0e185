//! Sets of ports, normalized to sorted ranges that neither overlap nor touch.

use super::{outcome, CanonicalError, CanonicalErrorView};
use crate::text::{
    decimal, decimal_digits, decimal_round_trip, find_char, from_chars, join, join_strings, lacks,
    parse_decimal, parse_u64, push_u64, split, split_chars, split_of_join, split_pieces, str_eq,
    texts, to_chars, u64_text,
};
use vstd::prelude::*;

verus! {

/// A set of ports.
#[derive(Debug, PartialEq, Eq)]
pub struct PortSet {
    ranges: Vec<(u16, u16)>,
    any: bool,
}

/// The model of a `PortSet`.
#[verifier::ext_equal]
pub struct PortsView {
    /// First and last port of each range.
    pub ranges: Seq<(u16, u16)>,
    /// An explicit grant of every port.
    pub any: bool,
}

impl View for PortSet {
    type V = PortsView;

    closed spec fn view(&self) -> PortsView {
        PortsView { ranges: self.ranges@, any: self.any }
    }
}

/// Some range holds `port`.
pub open spec fn in_ranges(ranges: Seq<(u16, u16)>, port: int) -> bool {
    exists|i: int| 0 <= i < ranges.len() && (#[trigger] ranges[i]).0 <= port <= ranges[i].1
}

/// The range `r` lies in one of `ranges`.
pub open spec fn fits(r: (u16, u16), ranges: Seq<(u16, u16)>) -> bool {
    exists|j: int|
        0 <= j < ranges.len() && (#[trigger] ranges[j]).0 <= r.0 && r.1 <= ranges[j].1
}

/// Every range is upright, and each ends before the port that precedes the
/// next.
pub open spec fn normalized(ranges: Seq<(u16, u16)>) -> bool {
    &&& forall|i: int| 0 <= i < ranges.len() ==> (#[trigger] ranges[i]).0 <= ranges[i].1
    &&& forall|i: int, j: int|
        #![trigger ranges[i], ranges[j]]
        0 <= i < j < ranges.len() ==> ranges[i].1 + 1 < ranges[j].0
}

/// The text of one range.
pub open spec fn range_text(r: (u16, u16)) -> Seq<char> {
    if r.0 == r.1 {
        decimal(r.0 as nat)
    } else {
        decimal(r.0 as nat).push('-') + decimal(r.1 as nat)
    }
}

/// The text of an inverted range.
pub open spec fn pair_text(start: u16, end: u16) -> Seq<char> {
    decimal(start as nat).push('-') + decimal(end as nat)
}

impl PortsView {
    /// Ranges are normalized, and stand aside where every port is granted.
    pub open spec fn wf(self) -> bool {
        normalized(self.ranges) && (self.any ==> self.ranges.len() == 0)
    }

    /// The set holds `port`.
    pub open spec fn has(self, port: int) -> bool {
        self.any || in_ranges(self.ranges, port)
    }

    /// Every range of the child lies in one range of the parent. Every port is
    /// only a subset of every port.
    pub open spec fn within(self, parent: PortsView) -> bool {
        if self.any {
            parent.any
        } else {
            parent.any || forall|i: int|
                0 <= i < self.ranges.len() ==> fits(#[trigger] self.ranges[i], parent.ranges)
        }
    }

    /// The ranges as text.
    pub open spec fn list(self) -> Seq<char> {
        if self.any {
            "*"@
        } else {
            join(self.ranges.map_values(|r: (u16, u16)| range_text(r)), ',')
        }
    }

    /// The canonical form.
    pub open spec fn form(self) -> Seq<char> {
        "ports:"@ + self.list()
    }
}

impl Clone for PortSet {
    fn clone(&self) -> (r: PortSet)
        ensures
            r@ == self@,
    {
        let mut ranges: Vec<(u16, u16)> = Vec::new();
        let mut i: usize = 0;
        while i < self.ranges.len()
            invariant
                i <= self.ranges@.len(),
                ranges@ == self.ranges@.take(i as int),
            decreases self.ranges@.len() - i,
        {
            ranges.push(self.ranges[i]);
            proof {
                assert(self.ranges@.take(i + 1) =~= self.ranges@.take(i as int).push(
                    self.ranges@[i as int],
                ));
            }
            i += 1;
        }
        proof {
            assert(self.ranges@.take(self.ranges@.len() as int) =~= self.ranges@);
        }
        PortSet { ranges, any: self.any }
    }
}

/// Some range between positions `from` and `to` holds `port`.
spec fn in_part(ranges: Seq<(u16, u16)>, from: int, to: int, port: int) -> bool {
    exists|k: int| from <= k < to && (#[trigger] ranges[k]).0 <= port <= ranges[k].1
}

/// Adds the ports from `start` to `end` to a normalized list of ranges.
fn add_range(ranges: &Vec<(u16, u16)>, start: u16, end: u16) -> (r: Vec<(u16, u16)>)
    requires
        normalized(ranges@),
        start <= end,
    ensures
        normalized(r@),
        forall|p: int| #[trigger]
            in_ranges(r@, p) <==> in_ranges(ranges@, p) || start <= p <= end,
{
    let ghost v = ranges@;
    let mut out: Vec<(u16, u16)> = Vec::new();
    let mut i: usize = 0;
    while i < ranges.len() && (ranges[i].1 as u32) + 1 < start as u32
        invariant
            v == ranges@,
            normalized(v),
            i <= v.len(),
            out@ == v.take(i as int),
            forall|k: int| 0 <= k < i ==> (#[trigger] v[k]).1 + 1 < start,
        decreases v.len() - i,
    {
        out.push(ranges[i]);
        proof {
            assert(v.take(i + 1) =~= v.take(i as int).push(v[i as int]));
        }
        i += 1;
    }
    let ghost first = i as int;
    let mut lo: u16 = start;
    let mut hi: u16 = end;
    while i < ranges.len() && (ranges[i].0 as u32) <= (hi as u32) + 1
        invariant
            v == ranges@,
            normalized(v),
            0 <= first <= i <= v.len(),
            out@ == v.take(first),
            lo <= start,
            end <= hi,
            start <= end,
            forall|k: int| 0 <= k < first ==> (#[trigger] v[k]).1 + 1 < lo,
            first < v.len() ==> v[first].1 + 1 >= start,
            forall|k: int| first <= k < i ==> lo <= (#[trigger] v[k]).0 && v[k].1 <= hi,
            forall|p: int|
                lo <= p <= hi ==> start <= p <= end || #[trigger] in_part(
                    v,
                    first,
                    i as int,
                    p,
                ),
        decreases v.len() - i,
    {
        let ghost lo0 = lo;
        let ghost hi0 = hi;
        if ranges[i].0 < lo {
            lo = ranges[i].0;
        }
        if ranges[i].1 > hi {
            hi = ranges[i].1;
        }
        proof {
            assert forall|k: int| 0 <= k < first implies (#[trigger] v[k]).1 + 1 < lo by {
                assert(v[k].1 + 1 < v[i as int].0);
            }
            assert forall|p: int| lo <= p <= hi implies start <= p <= end || #[trigger] in_part(
                v,
                first,
                i + 1,
                p,
            ) by {
                if lo0 <= p <= hi0 {
                    if !(start <= p <= end) {
                        assert(in_part(v, first, i as int, p));
                        let k = choose|k: int|
                            first <= k < i && (#[trigger] v[k]).0 <= p <= v[k].1;
                        assert(v[k].0 <= p <= v[k].1);
                    }
                } else {
                    if i > first {
                        assert(v[first].1 + 1 < v[i as int].0);
                    }
                    assert(v[i as int].0 <= p <= v[i as int].1);
                }
            }
        }
        i += 1;
    }
    let ghost last = i as int;
    out.push((lo, hi));
    let ghost head = v.take(first).push((lo, hi));
    while i < ranges.len()
        invariant
            v == ranges@,
            0 <= first <= last <= i <= v.len(),
            head == v.take(first).push((lo, hi)),
            out@ == head + v.subrange(last, i as int),
        decreases v.len() - i,
    {
        out.push(ranges[i]);
        proof {
            assert(v.subrange(last, i + 1) =~= v.subrange(last, i as int).push(v[i as int]));
            assert(out@ =~= head + v.subrange(last, i + 1));
        }
        i += 1;
    }
    proof {
        let o = out@;
        let tail = v.subrange(last, v.len() as int);
        assert(o == head + tail);
        assert forall|a: int| 0 <= a < o.len() implies (#[trigger] o[a]).0 <= o[a].1 by {
            if a > first {
                assert(o[a] == v[last + a - first - 1]);
            } else if a < first {
                assert(o[a] == v[a]);
            }
        }
        assert forall|a: int, b: int|
            #![trigger o[a], o[b]]
            0 <= a < b < o.len() implies o[a].1 + 1 < o[b].0 by {
            if b < first {
                assert(o[a] == v[a] && o[b] == v[b]);
            } else if b == first {
                assert(o[a] == v[a]);
            } else {
                assert(o[b] == v[last + b - first - 1]);
                if a < first {
                    assert(o[a] == v[a]);
                } else if a == first {
                    assert(hi + 1 < v[last].0);
                    if b > first + 1 {
                        assert(v[last].1 + 1 < v[last + b - first - 1].0);
                        assert(v[last].0 <= v[last].1);
                    }
                } else {
                    assert(o[a] == v[last + a - first - 1]);
                }
            }
        }
        assert forall|p: int| #[trigger]
            in_ranges(o, p) <==> in_ranges(v, p) || start <= p <= end by {
            if in_ranges(o, p) {
                let a = choose|a: int| 0 <= a < o.len() && (#[trigger] o[a]).0 <= p <= o[a].1;
                if a < first {
                    assert(v[a].0 <= p <= v[a].1);
                } else if a > first {
                    let k = last + a - first - 1;
                    assert(v[k].0 <= p <= v[k].1);
                } else if !(start <= p <= end) {
                    assert(in_part(v, first, last, p));
                    let k = choose|k: int|
                        first <= k < last && (#[trigger] v[k]).0 <= p <= v[k].1;
                    assert(v[k].0 <= p <= v[k].1);
                }
            }
            if start <= p <= end {
                assert(o[first].0 <= p <= o[first].1);
            }
            if in_ranges(v, p) {
                let k = choose|k: int| 0 <= k < v.len() && (#[trigger] v[k]).0 <= p <= v[k].1;
                if k < first {
                    assert(o[k] == v[k]);
                } else if k < last {
                    assert(o[first].0 <= p <= o[first].1);
                } else {
                    assert(o[first + 1 + k - last] == v[k]);
                }
            }
        }
    }
    out
}

/// The first inverted pair, as text.
pub open spec fn inverted(pairs: Seq<(u16, u16)>) -> Option<Seq<char>>
    decreases pairs.len(),
{
    if pairs.len() == 0 {
        None
    } else if let Some(t) = inverted(pairs.drop_last()) {
        Some(t)
    } else if pairs.last().0 > pairs.last().1 {
        Some(pair_text(pairs.last().0, pairs.last().1))
    } else {
        None
    }
}

proof fn inverted_none(pairs: Seq<(u16, u16)>)
    requires
        forall|i: int| 0 <= i < pairs.len() ==> (#[trigger] pairs[i]).0 <= pairs[i].1,
    ensures
        inverted(pairs) is None,
    decreases pairs.len(),
{
    if pairs.len() > 0 {
        assert forall|i: int| 0 <= i < pairs.drop_last().len() implies (
        #[trigger] pairs.drop_last()[i]).0 <= pairs.drop_last()[i].1 by {
            assert(pairs.drop_last()[i] == pairs[i]);
        }
        inverted_none(pairs.drop_last());
        assert(pairs[pairs.len() - 1].0 <= pairs[pairs.len() - 1].1);
    }
}

fn pair_to_text(start: u16, end: u16) -> (r: String)
    ensures
        r@ == pair_text(start, end),
{
    let mut out = u64_text(start as u64);
    out.push('-');
    push_u64(&mut out, end as u64);
    out
}

impl PortSet {
    /// Every port.
    pub fn any() -> (r: PortSet)
        ensures
            r@ == (PortsView { ranges: Seq::empty(), any: true }),
    {
        PortSet { ranges: Vec::new(), any: true }
    }

    /// One port.
    pub fn single(port: u16) -> (r: PortSet)
        ensures
            r@ == (PortsView { ranges: seq![(port, port)], any: false }),
    {
        let mut ranges: Vec<(u16, u16)> = Vec::new();
        ranges.push((port, port));
        proof {
            assert(ranges@ =~= seq![(port, port)]);
        }
        PortSet { ranges, any: false }
    }

    /// The ports from `start` to `end`.
    pub fn range(start: u16, end: u16) -> (r: Result<PortSet, CanonicalError>)
        ensures
            outcome(r) == (if start > end {
                Err(CanonicalErrorView::BadPort(pair_text(start, end)))
            } else {
                Ok(PortsView { ranges: seq![(start, end)], any: false })
            }),
    {
        if start > end {
            return Err(CanonicalError::BadPort(pair_to_text(start, end)));
        }
        let mut ranges: Vec<(u16, u16)> = Vec::new();
        ranges.push((start, end));
        proof {
            assert(ranges@ =~= seq![(start, end)]);
        }
        Ok(PortSet { ranges, any: false })
    }

    /// The given ports.
    pub fn from_ports(ports: &Vec<u16>) -> (r: PortSet)
        ensures
            r@.wf(),
            !r@.any,
            forall|p: int| #[trigger]
                r@.has(p) <==> exists|i: int| 0 <= i < ports@.len() && ports@[i] == p,
    {
        let mut ranges: Vec<(u16, u16)> = Vec::new();
        let mut i: usize = 0;
        while i < ports.len()
            invariant
                i <= ports@.len(),
                normalized(ranges@),
                forall|p: int| #[trigger]
                    in_ranges(ranges@, p) <==> exists|k: int| 0 <= k < i && ports@[k] == p,
            decreases ports@.len() - i,
        {
            let ghost before = ranges@;
            ranges = add_range(&ranges, ports[i], ports[i]);
            proof {
                assert forall|p: int| #[trigger]
                    in_ranges(ranges@, p) <==> exists|k: int|
                        0 <= k < i + 1 && ports@[k] == p by {
                    if in_ranges(before, p) {
                        let k = choose|k: int| 0 <= k < i && ports@[k] == p;
                        assert(ports@[k] == p);
                    }
                    if p == ports@[i as int] {
                        assert(ports@[i as int] == p);
                    }
                    if exists|k: int| 0 <= k < i + 1 && ports@[k] == p {
                        let k = choose|k: int| 0 <= k < i + 1 && ports@[k] == p;
                        if k < i {
                            assert(in_ranges(before, p));
                        }
                    }
                }
            }
            i += 1;
        }
        PortSet { ranges, any: false }
    }

    /// The ports of the given ranges, which are validated, sorted and merged
    /// and never expanded into single ports.
    pub fn from_ranges(pairs: &Vec<(u16, u16)>) -> (r: Result<PortSet, CanonicalError>)
        ensures
            match r {
                Ok(s) => inverted(pairs@) is None && s@.wf() && !s@.any && forall|p: int| #[trigger]
                    s@.has(p) <==> in_ranges(pairs@, p),
                Err(e) => inverted(pairs@) is Some && e@ == CanonicalErrorView::BadPort(
                    inverted(pairs@)->0,
                ),
            },
    {
        let mut i: usize = 0;
        proof {
            assert(pairs@.take(0) =~= Seq::<(u16, u16)>::empty());
        }
        while i < pairs.len()
            invariant
                i <= pairs@.len(),
                inverted(pairs@.take(i as int)) is None,
                forall|k: int| 0 <= k < i ==> (#[trigger] pairs@[k]).0 <= pairs@[k].1,
            decreases pairs@.len() - i,
        {
            proof {
                assert(pairs@.take(i + 1).drop_last() =~= pairs@.take(i as int));
                assert(pairs@.take(i + 1).last() == pairs@[i as int]);
            }
            if pairs[i].0 > pairs[i].1 {
                proof {
                    inverted_grows(pairs@, i + 1);
                }
                return Err(CanonicalError::BadPort(pair_to_text(pairs[i].0, pairs[i].1)));
            }
            i += 1;
        }
        proof {
            assert(pairs@.take(pairs@.len() as int) =~= pairs@);
        }
        let mut ranges: Vec<(u16, u16)> = Vec::new();
        let mut j: usize = 0;
        while j < pairs.len()
            invariant
                j <= pairs@.len(),
                normalized(ranges@),
                forall|k: int| 0 <= k < pairs@.len() ==> (#[trigger] pairs@[k]).0 <= pairs@[k].1,
                forall|p: int| #[trigger]
                    in_ranges(ranges@, p) <==> in_ranges(pairs@.take(j as int), p),
            decreases pairs@.len() - j,
        {
            let ghost before = ranges@;
            ranges = add_range(&ranges, pairs[j].0, pairs[j].1);
            proof {
                let next = pairs@.take(j + 1);
                let done = pairs@.take(j as int);
                assert forall|p: int| #[trigger]
                    in_ranges(ranges@, p) <==> in_ranges(next, p) by {
                    assert(in_ranges(before, p) <==> in_ranges(done, p));
                    if in_ranges(done, p) {
                        let k = choose|k: int|
                            0 <= k < done.len() && (#[trigger] done[k]).0 <= p <= done[k].1;
                        assert(next[k] == done[k]);
                    }
                    if pairs@[j as int].0 <= p <= pairs@[j as int].1 {
                        assert(next[j as int] == pairs@[j as int]);
                    }
                    if in_ranges(next, p) {
                        let k = choose|k: int|
                            0 <= k < next.len() && (#[trigger] next[k]).0 <= p <= next[k].1;
                        if k < j {
                            assert(done[k] == next[k]);
                        }
                    }
                }
            }
            j += 1;
        }
        proof {
            assert(pairs@.take(pairs@.len() as int) =~= pairs@);
        }
        Ok(PortSet { ranges, any: false })
    }

    /// Whether the set holds `port`.
    pub fn contains(&self, port: u16) -> (r: bool)
        ensures
            r == self@.has(port as int),
    {
        if self.any {
            return true;
        }
        let mut i: usize = 0;
        while i < self.ranges.len()
            invariant
                i <= self.ranges@.len(),
                forall|k: int|
                    0 <= k < i ==> !((#[trigger] self.ranges@[k]).0 <= port
                        <= self.ranges@[k].1),
                !self.any,
            decreases self.ranges@.len() - i,
        {
            if self.ranges[i].0 <= port && port <= self.ranges[i].1 {
                proof {
                    assert(self@.ranges[i as int].0 <= port <= self@.ranges[i as int].1);
                }
                return true;
            }
            i += 1;
        }
        false
    }

    /// Whether every range of this set lies in one range of `parent`.
    pub fn is_subset_of(&self, parent: &PortSet) -> (r: bool)
        ensures
            r == self@.within(parent@),
    {
        if self.any {
            return parent.any;
        }
        if parent.any {
            return true;
        }
        let ghost c = self.ranges@;
        let ghost q = parent.ranges@;
        let mut i: usize = 0;
        while i < self.ranges.len()
            invariant
                c == self.ranges@,
                q == parent.ranges@,
                !self.any,
                !parent.any,
                i <= c.len(),
                forall|k: int| 0 <= k < i ==> fits(#[trigger] c[k], q),
            decreases c.len() - i,
        {
            let mut found = false;
            let mut j: usize = 0;
            while j < parent.ranges.len() && !found
                invariant
                    c == self.ranges@,
                    q == parent.ranges@,
                    i < c.len(),
                    j <= q.len(),
                    found ==> fits(c[i as int], q),
                    !found ==> forall|k: int|
                        0 <= k < j ==> !((#[trigger] q[k]).0 <= c[i as int].0 && c[i as int].1
                            <= q[k].1),
                decreases q.len() - j,
            {
                if parent.ranges[j].0 <= self.ranges[i].0 && self.ranges[i].1
                    <= parent.ranges[j].1 {
                    proof {
                        assert(q[j as int].0 <= c[i as int].0);
                    }
                    found = true;
                }
                j += 1;
            }
            if !found {
                proof {
                    assert(!fits(self@.ranges[i as int], q));
                }
                return false;
            }
            i += 1;
        }
        true
    }

    /// The canonical form.
    pub fn canonical_form(&self) -> (r: String)
        ensures
            r@ == self@.form(),
    {
        let mut out = "ports:".to_owned();
        out.append(self.list_text().as_str());
        out
    }

    fn list_text(&self) -> (r: String)
        ensures
            r@ == self@.list(),
    {
        if self.any {
            return "*".to_owned();
        }
        let mut parts: Vec<String> = Vec::new();
        let mut i: usize = 0;
        let ghost want = self.ranges@.map_values(|r: (u16, u16)| range_text(r));
        while i < self.ranges.len()
            invariant
                i <= self.ranges@.len(),
                want == self.ranges@.map_values(|r: (u16, u16)| range_text(r)),
                texts(parts@) == want.take(i as int),
            decreases self.ranges@.len() - i,
        {
            let ghost before = texts(parts@);
            parts.push(range_to_text(self.ranges[i]));
            proof {
                assert(texts(parts@) =~= before.push(want[i as int]));
                assert(want.take(i + 1) =~= want.take(i as int).push(want[i as int]));
            }
            i += 1;
        }
        proof {
            assert(want.take(want.len() as int) =~= want);
        }
        join_strings(&parts, ',')
    }

    /// The ranges.
    pub fn ranges(&self) -> (r: &Vec<(u16, u16)>)
        ensures
            r@ == self@.ranges,
    {
        &self.ranges
    }

    /// Whether every port is granted.
    pub fn is_any(&self) -> (r: bool)
        ensures
            r == self@.any,
    {
        self.any
    }

    /// A decoded set, refused unless it is normalized already.
    pub fn decode(ranges: &Vec<(u16, u16)>, any: bool) -> (r: Result<PortSet, CanonicalError>)
        ensures
            outcome(r) == (if any {
                if ranges@.len() == 0 {
                    Ok(PortsView { ranges: ranges@, any })
                } else {
                    Err(CanonicalErrorView::InvalidEncoding("any ports cannot contain ranges"@))
                }
            } else if let Some(t) = inverted(ranges@) {
                Err(CanonicalErrorView::BadPort(t))
            } else if normalized(ranges@) {
                Ok(PortsView { ranges: ranges@, any })
            } else {
                Err(
                    CanonicalErrorView::InvalidEncoding(
                        "port ranges must already be normalized"@,
                    ),
                )
            }),
    {
        if any {
            if ranges.len() == 0 {
                let s = PortSet::any();
                proof {
                    assert(s@ =~= PortsView { ranges: ranges@, any });
                }
                return Ok(s);
            }
            return Err(CanonicalError::InvalidEncoding("any ports cannot contain ranges"));
        }
        let s = match PortSet::from_ranges(ranges) {
            Ok(s) => s,
            Err(e) => {
                return Err(e);
            },
        };
        let same = same_pairs(&s.ranges, ranges);
        proof {
            if normalized(ranges@) {
                assert forall|p: int| #[trigger] in_ranges(s@.ranges, p) <==> in_ranges(
                    ranges@,
                    p,
                ) by {
                    assert(s@.has(p) <==> in_ranges(ranges@, p));
                }
                normal_form_is_unique(s@.ranges, ranges@);
            }
            assert(same ==> s@ =~= PortsView { ranges: ranges@, any });
        }
        if same {
            Ok(s)
        } else {
            Err(CanonicalError::InvalidEncoding("port ranges must already be normalized"))
        }
    }
}

impl Default for PortSet {
    fn default() -> (r: PortSet)
        ensures
            r@ == (PortsView { ranges: Seq::empty(), any: false }),
    {
        PortSet { ranges: Vec::new(), any: false }
    }
}

impl PortSet {
    /// Whether both are the same ports in the same ranges.
    pub fn same(&self, other: &PortSet) -> (r: bool)
        ensures
            r == (self@ == other@),
    {
        self.any == other.any && same_pairs(&self.ranges, &other.ranges)
    }
}

fn same_pairs(a: &Vec<(u16, u16)>, b: &Vec<(u16, u16)>) -> (r: bool)
    ensures
        r == (a@ == b@),
{
    if a.len() != b.len() {
        return false;
    }
    let mut i: usize = 0;
    while i < a.len()
        invariant
            a@.len() == b@.len(),
            i <= a@.len(),
            forall|k: int| 0 <= k < i ==> a@[k] == b@[k],
        decreases a@.len() - i,
    {
        if a[i].0 != b[i].0 || a[i].1 != b[i].1 {
            return false;
        }
        i += 1;
    }
    proof {
        assert(a@ =~= b@);
    }
    true
}

fn range_to_text(r: (u16, u16)) -> (t: String)
    ensures
        t@ == range_text(r),
{
    if r.0 == r.1 {
        u64_text(r.0 as u64)
    } else {
        pair_to_text(r.0, r.1)
    }
}

proof fn inverted_grows(pairs: Seq<(u16, u16)>, k: int)
    requires
        0 <= k <= pairs.len(),
        inverted(pairs.take(k)) is Some,
    ensures
        inverted(pairs) == inverted(pairs.take(k)),
    decreases pairs.len() - k,
{
    if k < pairs.len() {
        assert(pairs.take(k + 1).drop_last() =~= pairs.take(k));
        inverted_grows(pairs, k + 1);
    } else {
        assert(pairs.take(k) =~= pairs);
    }
}

proof fn first_range_agrees(a: Seq<(u16, u16)>, b: Seq<(u16, u16)>)
    requires
        normalized(a),
        normalized(b),
        a.len() > 0,
        forall|p: int| #[trigger] in_ranges(a, p) <==> in_ranges(b, p),
    ensures
        b.len() > 0,
        a.last() == b.last(),
{
    let (s, e) = (a.last().0 as int, a.last().1 as int);
    assert(a[a.len() - 1].0 <= e <= a[a.len() - 1].1);
    assert(in_ranges(a, e));
    assert(in_ranges(b, e));
    let j = choose|j: int| 0 <= j < b.len() && (#[trigger] b[j]).0 <= e <= b[j].1;
    let (s2, e2) = (b.last().0 as int, b.last().1 as int);
    assert(b[b.len() - 1].0 <= e2 <= b[b.len() - 1].1);
    assert(in_ranges(b, e2));
    assert(in_ranges(a, e2));
    let i = choose|i: int| 0 <= i < a.len() && (#[trigger] a[i]).0 <= e2 <= a[i].1;
    // The largest port of each set is the end of its last range.
    assert(e2 <= e) by {
        if i < a.len() - 1 {
            assert(a[i].1 + 1 < a[a.len() - 1].0);
        }
    }
    assert(e <= e2) by {
        if j < b.len() - 1 {
            assert(b[j].1 + 1 < b[b.len() - 1].0);
        }
    }
    // Below the start of a last range there is a port that its set lacks.
    if s < s2 {
        assert(a[a.len() - 1].0 <= s2 - 1 <= a[a.len() - 1].1);
        assert(in_ranges(a, s2 - 1));
        assert(in_ranges(b, s2 - 1));
        let k = choose|k: int| 0 <= k < b.len() && (#[trigger] b[k]).0 <= s2 - 1 <= b[k].1;
        if k < b.len() - 1 {
            assert(b[k].1 + 1 < b[b.len() - 1].0);
        }
    }
    if s2 < s {
        assert(b[b.len() - 1].0 <= s - 1 <= b[b.len() - 1].1);
        assert(in_ranges(b, s - 1));
        assert(in_ranges(a, s - 1));
        let k = choose|k: int| 0 <= k < a.len() && (#[trigger] a[k]).0 <= s - 1 <= a[k].1;
        if k < a.len() - 1 {
            assert(a[k].1 + 1 < a[a.len() - 1].0);
        }
    }
}

/// Two normalized lists of ranges with the same ports are the same list.
pub proof fn normal_form_is_unique(a: Seq<(u16, u16)>, b: Seq<(u16, u16)>)
    requires
        normalized(a),
        normalized(b),
        forall|p: int| #[trigger] in_ranges(a, p) <==> in_ranges(b, p),
    ensures
        a == b,
    decreases a.len(),
{
    if a.len() == 0 {
        if b.len() > 0 {
            assert(b[0].0 <= b[0].0 as int <= b[0].1);
            assert(in_ranges(b, b[0].0 as int));
            assert(in_ranges(a, b[0].0 as int));
        }
        assert(a =~= b);
    } else {
        first_range_agrees(a, b);
        let a1 = a.drop_last();
        let b1 = b.drop_last();
        assert(normalized(a1)) by {
            assert forall|x: int, y: int|
                #![trigger a1[x], a1[y]]
                0 <= x < y < a1.len() implies a1[x].1 + 1 < a1[y].0 by {
                assert(a[x].1 + 1 < a[y].0);
            }
            assert forall|x: int| 0 <= x < a1.len() implies (#[trigger] a1[x]).0 <= a1[x].1 by {
                assert(a[x].0 <= a[x].1);
            }
        }
        assert(normalized(b1)) by {
            assert forall|x: int, y: int|
                #![trigger b1[x], b1[y]]
                0 <= x < y < b1.len() implies b1[x].1 + 1 < b1[y].0 by {
                assert(b[x].1 + 1 < b[y].0);
            }
            assert forall|x: int| 0 <= x < b1.len() implies (#[trigger] b1[x]).0 <= b1[x].1 by {
                assert(b[x].0 <= b[x].1);
            }
        }
        assert forall|p: int| #[trigger] in_ranges(a1, p) <==> in_ranges(b1, p) by {
            if in_ranges(a1, p) {
                let k = choose|k: int| 0 <= k < a1.len() && (#[trigger] a1[k]).0 <= p <= a1[k].1;
                assert(a[k].0 <= p <= a[k].1);
                assert(in_ranges(a, p));
                assert(in_ranges(b, p));
                assert(a[k].1 + 1 < a[a.len() - 1].0);
                let m = choose|m: int| 0 <= m < b.len() && (#[trigger] b[m]).0 <= p <= b[m].1;
                assert(m != b.len() - 1);
                assert(b1[m].0 <= p <= b1[m].1);
            }
            if in_ranges(b1, p) {
                let k = choose|k: int| 0 <= k < b1.len() && (#[trigger] b1[k]).0 <= p <= b1[k].1;
                assert(b[k].0 <= p <= b[k].1);
                assert(in_ranges(b, p));
                assert(in_ranges(a, p));
                assert(b[k].1 + 1 < b[b.len() - 1].0);
                let m = choose|m: int| 0 <= m < a.len() && (#[trigger] a[m]).0 <= p <= a[m].1;
                assert(m != a.len() - 1);
                assert(a1[m].0 <= p <= a1[m].1);
            }
        }
        normal_form_is_unique(a1, b1);
        assert(a =~= a1.push(a.last()));
        assert(b =~= b1.push(b.last()));
    }
}

/// On normalized sets the range-by-range subset is the subset of ports. (Every
/// port, as an explicit grant, is only within an explicit grant.)
pub proof fn within_is_inclusion(child: PortsView, parent: PortsView)
    requires
        child.wf(),
        parent.wf(),
        !child.any,
    ensures
        child.within(parent) <==> forall|p: int| #[trigger] child.has(p) ==> parent.has(p),
{
    let c = child.ranges;
    let q = parent.ranges;
    if child.within(parent) {
        assert forall|p: int| #[trigger] child.has(p) implies parent.has(p) by {
            if !parent.any {
                let i = choose|i: int| 0 <= i < c.len() && (#[trigger] c[i]).0 <= p <= c[i].1;
                assert(fits(c[i], q));
                let j = choose|j: int|
                    0 <= j < q.len() && (#[trigger] q[j]).0 <= c[i].0 && c[i].1 <= q[j].1;
                assert(q[j].0 <= p <= q[j].1);
            }
        }
    }
    if (forall|p: int| #[trigger] child.has(p) ==> parent.has(p)) && !parent.any {
        assert forall|i: int| 0 <= i < c.len() implies fits(#[trigger] c[i], q) by {
            let cs = c[i].0 as int;
            let ce = c[i].1 as int;
            assert(c[i].0 <= cs <= c[i].1);
            assert(in_ranges(c, cs));
            assert(child.has(cs));
            assert(in_ranges(q, cs));
            let j = choose|j: int| 0 <= j < q.len() && (#[trigger] q[j]).0 <= cs <= q[j].1;
            if ce > q[j].1 {
                let gap = q[j].1 + 1;
                assert(c[i].0 <= gap <= c[i].1);
                assert(in_ranges(c, gap));
                assert(child.has(gap));
                assert(in_ranges(q, gap));
                let k = choose|k: int| 0 <= k < q.len() && (#[trigger] q[k]).0 <= gap <= q[k].1;
                if k < j {
                    assert(q[k].1 + 1 < q[j].0);
                } else if k > j {
                    assert(q[j].1 + 1 < q[k].0);
                }
            }
            assert(q[j].0 <= c[i].0 && c[i].1 <= q[j].1);
        }
    }
}

/// The subset of port sets is reflexive and transitive.
pub proof fn within_is_transitive(a: PortsView, b: PortsView, c: PortsView)
    ensures
        a.within(a),
        a.within(b) && b.within(c) ==> a.within(c),
{
    assert forall|i: int| 0 <= i < a.ranges.len() implies fits(#[trigger] a.ranges[i], a.ranges) by {
        assert(a.ranges[i].0 <= a.ranges[i].0);
    }
    if a.within(b) && b.within(c) && !a.any && !b.any && !c.any {
        assert forall|i: int| 0 <= i < a.ranges.len() implies fits(
            #[trigger] a.ranges[i],
            c.ranges,
        ) by {
            assert(fits(a.ranges[i], b.ranges));
            let j = choose|j: int|
                0 <= j < b.ranges.len() && (#[trigger] b.ranges[j]).0 <= a.ranges[i].0
                    && a.ranges[i].1 <= b.ranges[j].1;
            assert(fits(b.ranges[j], c.ranges));
            let k = choose|k: int|
                0 <= k < c.ranges.len() && (#[trigger] c.ranges[k]).0 <= b.ranges[j].0
                    && b.ranges[j].1 <= c.ranges[k].1;
            assert(c.ranges[k].0 <= a.ranges[i].0);
        }
    }
}

/// The text of `n` has no character that is not a digit.
proof fn decimal_lacks(n: nat, c: char)
    requires
        !('0' as int <= c as int <= '9' as int),
    ensures
        lacks(decimal(n), c),
{
    decimal_digits(n);
}

/// The text of a range has neither commas nor colons.
proof fn range_text_lacks(r: (u16, u16), c: char)
    requires
        !('0' as int <= c as int <= '9' as int),
        c != '-',
    ensures
        lacks(range_text(r), c),
{
    decimal_lacks(r.0 as nat, c);
    decimal_lacks(r.1 as nat, c);
    let t = range_text(r);
    assert forall|i: int| 0 <= i < t.len() implies #[trigger] t[i] != c by {
        let a = decimal(r.0 as nat);
        if r.0 != r.1 {
            if i < a.len() {
                assert(t[i] == a[i]);
            } else if i > a.len() {
                assert(t[i] == decimal(r.1 as nat)[i - a.len() - 1]);
            }
        }
    }
}

/// Reads one range, in its canonical spelling only.
fn parse_piece(piece: &str) -> (r: Option<(u16, u16)>)
    ensures
        match r {
            Some(p) => p.0 <= p.1 && range_text(p) == piece@,
            None => forall|p: (u16, u16)| p.0 <= p.1 ==> #[trigger] range_text(p) != piece@,
        },
{
    let c = to_chars(piece);
    match find_char(&c, 0, '-') {
        None => {
            let n: u64 = match parse_u64(&c, 65535) {
                Some(n) => n,
                None => {
                    proof {
                        no_dash_piece(piece@);
                    }
                    return None;
                },
            };
            let out = (n as u16, n as u16);
            if str_eq(range_to_text(out).as_str(), piece) {
                Some(out)
            } else {
                proof {
                    no_dash_piece(piece@);
                }
                None
            }
        },
        Some(i) => {
            let left = to_chars(from_chars(&c, 0, i).as_str());
            let right = to_chars(from_chars(&c, i + 1, c.len()).as_str());
            let ghost at = i as int;
            proof {
                dash_piece(piece@, at);
            }
            match (parse_u64(&left, 65535), parse_u64(&right, 65535)) {
                (Some(a), Some(b)) => {
                    let out = (a as u16, b as u16);
                    if a < b && str_eq(range_to_text(out).as_str(), piece) {
                        Some(out)
                    } else {
                        None
                    }
                },
                _ => None,
            }
        },
    }
}

/// A piece without a dash is the text of a single port, if of anything.
proof fn no_dash_piece(s: Seq<char>)
    requires
        lacks(s, '-'),
    ensures
        forall|p: (u16, u16)| p.0 <= p.1 && #[trigger] range_text(p) == s ==> p.0 == p.1
            && parse_decimal(s, 65535) == Some(p.0 as nat),
{
    assert forall|p: (u16, u16)| p.0 <= p.1 && #[trigger] range_text(p) == s implies p.0 == p.1
        && parse_decimal(s, 65535) == Some(p.0 as nat) by {
        decimal_round_trip(p.0 as nat, 65535);
        if p.0 != p.1 {
            let n = decimal(p.0 as nat).len() as int;
            assert(range_text(p)[n] == '-');
        }
    }
}

/// A piece whose first dash stands at `at` is the text of the range between
/// the numbers on its sides, if of anything.
proof fn dash_piece(s: Seq<char>, at: int)
    requires
        0 <= at < s.len(),
        s[at] == '-',
        forall|j: int| 0 <= j < at ==> #[trigger] s[j] != '-',
    ensures
        forall|p: (u16, u16)| p.0 <= p.1 && #[trigger] range_text(p) == s ==> p.0 < p.1
            && parse_decimal(s.subrange(0, at), 65535) == Some(p.0 as nat) && parse_decimal(
            s.subrange(at + 1, s.len() as int),
            65535,
        ) == Some(p.1 as nat),
{
    assert forall|p: (u16, u16)| p.0 <= p.1 && #[trigger] range_text(p) == s implies p.0 < p.1
        && parse_decimal(s.subrange(0, at), 65535) == Some(p.0 as nat) && parse_decimal(
        s.subrange(at + 1, s.len() as int),
        65535,
    ) == Some(p.1 as nat) by {
        let a = decimal(p.0 as nat);
        let b = decimal(p.1 as nat);
        decimal_lacks(p.0 as nat, '-');
        decimal_round_trip(p.0 as nat, 65535);
        decimal_round_trip(p.1 as nat, 65535);
        if p.0 == p.1 {
            assert(a[at] == '-');
        } else {
            assert(s == a.push('-') + b);
            assert(s[a.len() as int] == '-');
            if at < a.len() {
                assert(a[at] == s[at]);
            }
            assert(at == a.len());
            assert(s.subrange(0, at) =~= a);
            assert(s.subrange(at + 1, s.len() as int) =~= b);
        }
    }
}

impl PortsView {
    /// The set has a canonical text: it is normalized and not empty.
    pub open spec fn listable(self) -> bool {
        self.wf() && (self.any || self.ranges.len() > 0)
    }
}

/// Whether a list of pairs is normalized.
fn is_normalized(v: &Vec<(u16, u16)>) -> (r: bool)
    requires
        forall|i: int| 0 <= i < v@.len() ==> (#[trigger] v@[i]).0 <= v@[i].1,
    ensures
        r == normalized(v@),
{
    let mut i: usize = 1;
    while i < v.len()
        invariant
            1 <= i,
            i <= v@.len() || v@.len() == 0,
            forall|k: int| 0 <= k < v@.len() ==> (#[trigger] v@[k]).0 <= v@[k].1,
            forall|a: int, b: int|
                #![trigger v@[a], v@[b]]
                0 <= a < b < i && b < v@.len() ==> v@[a].1 + 1 < v@[b].0,
        decreases v@.len() - i,
    {
        if (v[i - 1].1 as u32) + 1 >= v[i].0 as u32 {
            proof {
                assert(!(v@[i - 1].1 + 1 < v@[i as int].0));
            }
            return false;
        }
        proof {
            assert forall|a: int, b: int|
                #![trigger v@[a], v@[b]]
                0 <= a < b < i + 1 && b < v@.len() implies v@[a].1 + 1 < v@[b].0 by {
                if b == i && a < i - 1 {
                    assert(v@[a].1 + 1 < v@[i - 1].0);
                    assert(v@[i - 1].0 <= v@[i - 1].1);
                }
            }
        }
        i += 1;
    }
    true
}

/// Reads the text of a port set, in its canonical spelling only.
pub fn parse_port_list(text: &str) -> (r: Option<PortSet>)
    ensures
        match r {
            Some(s) => s@.listable() && s@.list() == text@,
            None => forall|p: PortsView| p.listable() ==> #[trigger] p.list() != text@,
        },
{
    if str_eq(text, "*") {
        return Some(PortSet::any());
    }
    let c = to_chars(text);
    let pieces = split_chars(&c, 0, c.len(), ',');
    let ghost t = texts(pieces@);
    proof {
        assert(c@.subrange(0, c@.len() as int) =~= c@);
        split_pieces(text@, ',');
    }
    let mut pairs: Vec<(u16, u16)> = Vec::new();
    let mut i: usize = 0;
    while i < pieces.len()
        invariant
            t == texts(pieces@),
            t == split(text@, ','),
            text@ != "*"@,
            i <= pieces@.len(),
            pairs@.len() == i,
            forall|k: int|
                0 <= k < i ==> (#[trigger] pairs@[k]).0 <= pairs@[k].1 && range_text(pairs@[k])
                    == t[k],
        decreases pieces@.len() - i,
    {
        match parse_piece(pieces[i].as_str()) {
            Some(p) => {
                pairs.push(p);
            },
            None => {
                proof {
                    assert forall|p: PortsView| p.listable() implies #[trigger] p.list()
                        != text@ by {
                        if p.list() == text@ && !p.any {
                            list_pieces(p);
                            assert(range_text(p.ranges[i as int]) == t[i as int]);
                            assert(p.ranges[i as int].0 <= p.ranges[i as int].1);
                        }
                    }
                }
                return None;
            },
        }
        i += 1;
    }
    let ok = is_normalized(&pairs);
    proof {
        let want = pairs@.map_values(|r: (u16, u16)| range_text(r));
        assert(want =~= t);
        crate::text::join_of_split(text@, ',');
        if !ok {
            assert forall|p: PortsView| p.listable() implies #[trigger] p.list() != text@ by {
                if p.list() == text@ && !p.any {
                    list_pieces(p);
                    assert(p.ranges =~= pairs@) by {
                        assert forall|k: int| 0 <= k < pairs@.len() implies p.ranges[k]
                            == pairs@[k] by {
                            assert(range_text(p.ranges[k]) == t[k]);
                            assert(range_text(pairs@[k]) == t[k]);
                            range_text_injective(p.ranges[k], pairs@[k]);
                        }
                    }
                }
            }
        }
    }
    if ok {
        Some(PortSet { ranges: pairs, any: false })
    } else {
        None
    }
}

/// Different ranges have different texts.
proof fn range_text_injective(p: (u16, u16), q: (u16, u16))
    requires
        p.0 <= p.1,
        q.0 <= q.1,
        range_text(p) == range_text(q),
    ensures
        p == q,
{
    let s = range_text(p);
    decimal_round_trip(p.0 as nat, 65535);
    decimal_round_trip(q.0 as nat, 65535);
    if p.0 == p.1 {
        decimal_lacks(p.0 as nat, '-');
        no_dash_piece(s);
    } else {
        let at = decimal(p.0 as nat).len() as int;
        decimal_lacks(p.0 as nat, '-');
        assert(s[at] == '-');
        assert forall|j: int| 0 <= j < at implies #[trigger] s[j] != '-' by {
            assert(s[j] == decimal(p.0 as nat)[j]);
        }
        dash_piece(s, at);
    }
}

/// Splitting the text of a port set gives the texts of its ranges.
proof fn list_pieces(p: PortsView)
    requires
        p.listable(),
        !p.any,
    ensures
        split(p.list(), ',') == p.ranges.map_values(|r: (u16, u16)| range_text(r)),
        split(p.list(), ',').len() == p.ranges.len(),
{
    let parts = p.ranges.map_values(|r: (u16, u16)| range_text(r));
    assert forall|i: int| 0 <= i < parts.len() implies lacks(#[trigger] parts[i], ',') by {
        range_text_lacks(p.ranges[i], ',');
    }
    split_of_join(parts, ',');
}

/// The text of a port set has no colon.
pub proof fn list_lacks_colon(p: PortsView)
    requires
        p.listable(),
    ensures
        lacks(p.list(), ':'),
{
    if p.any {
        reveal_strlit("*");
    } else {
        let parts = p.ranges.map_values(|r: (u16, u16)| range_text(r));
        assert forall|i: int| 0 <= i < parts.len() implies lacks(#[trigger] parts[i], ':') by {
            range_text_lacks(p.ranges[i], ':');
        }
        join_lacks(parts, ',', ':');
    }
}

/// What no piece holds, and the separator is not, the joined text does not
/// hold.
pub proof fn join_lacks(parts: Seq<Seq<char>>, sep: char, c: char)
    requires
        sep != c,
        forall|i: int| 0 <= i < parts.len() ==> lacks(#[trigger] parts[i], c),
    ensures
        lacks(join(parts, sep), c),
    decreases parts.len(),
{
    if parts.len() == 1 {
        assert(lacks(parts[0], c));
    } else if parts.len() > 1 {
        let head = parts.drop_last();
        assert forall|i: int| 0 <= i < head.len() implies lacks(#[trigger] head[i], c) by {
            assert(head[i] == parts[i]);
        }
        join_lacks(head, sep, c);
        assert(lacks(parts[parts.len() - 1], c));
    }
}

/// Different port sets have different texts.
pub proof fn list_is_injective(p: PortsView, q: PortsView)
    requires
        p.listable(),
        q.listable(),
        p.list() == q.list(),
    ensures
        p == q,
{
    reveal_strlit("*");
    if !p.any {
        list_pieces(p);
    }
    if !q.any {
        list_pieces(q);
    }
    if !p.any && !q.any {
        assert(p.ranges =~= q.ranges) by {
            assert forall|k: int| 0 <= k < p.ranges.len() implies p.ranges[k] == q.ranges[k] by {
                assert(split(p.list(), ',')[k] == range_text(p.ranges[k]));
                assert(split(q.list(), ',')[k] == range_text(q.ranges[k]));
                range_text_injective(p.ranges[k], q.ranges[k]);
            }
        }
    } else if p.any && !q.any {
        star_is_no_list(q);
    } else if !p.any && q.any {
        star_is_no_list(p);
    }
    assert(p =~= q);
}

proof fn star_is_no_list(q: PortsView)
    requires
        q.listable(),
        !q.any,
    ensures
        q.list() != "*"@,
{
    reveal_strlit("*");
    list_pieces(q);
    if q.list() == "*"@ {
        let star = seq!['*'];
        assert("*"@ =~= star);
        assert(star.drop_last() =~= Seq::<char>::empty());
        let head = split(star.drop_last(), ',');
        assert(head == seq![Seq::<char>::empty()]);
        assert(split(star, ',').len() == 1);
        assert(head.last().push('*') =~= star);
        assert(split(star, ',')[0] == star);
        assert(range_text(q.ranges[0]) == star);
        decimal_digits(q.ranges[0].0 as nat);
        assert(star[0] == decimal(q.ranges[0].0 as nat)[0]);
    }
}

} // verus!
