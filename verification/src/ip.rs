//! IP addresses and ranges as plain integers, and their classification.

use crate::text::decimal;
use vstd::arithmetic::div_mod::lemma_div_denominator;
use vstd::arithmetic::power2::{lemma_pow2_adds, lemma_pow2_pos, pow2};
use vstd::prelude::*;

verus! {

/// An address: 32 bits or 128 bits, most significant octet first.
#[derive(Clone, Copy, Debug, PartialEq, Eq, PartialOrd, Ord, Hash, Structural)]
pub enum IpAddress {
    V4(u32),
    V6(u128),
}

/// An address and the length of its network prefix.
#[derive(Clone, Copy, Debug, PartialEq, Eq, PartialOrd, Ord, Hash, Structural)]
pub struct IpRange {
    pub addr: IpAddress,
    pub prefix: u8,
}

/// The address that a text writes, if it writes one.
pub uninterp spec fn ip_of_text(s: Seq<char>) -> Option<IpAddress>;

/// The range that a text writes, if it writes one.
pub uninterp spec fn range_of_text(s: Seq<char>) -> Option<IpRange>;

/// The text of an address.
pub uninterp spec fn ip_text(a: IpAddress) -> Seq<char>;

/// The characters that the text of an address is made of.
pub open spec fn is_ip_char(c: char) -> bool {
    '0' as int <= c as int <= '9' as int || 'a' as int <= c as int <= 'f' as int || c == ':' || c
        == '.'
}

/// Reads an address with the standard library's `IpAddr::from_str`. The target
/// type is the one that `ipnet::IpNet::new` takes, which also tells the two
/// families apart.
#[verifier::external_body]
pub(crate) fn parse_ip(s: &str) -> (r: Option<IpAddress>)
    ensures
        r == ip_of_text(s@),
{
    match s.parse().map(|ip| ipnet::IpNet::new(ip, 0)) {
        Ok(Ok(ipnet::IpNet::V4(n))) => Some(IpAddress::V4(u32::from(n.addr()))),
        Ok(Ok(ipnet::IpNet::V6(n))) => Some(IpAddress::V6(u128::from(n.addr()))),
        _ => None,
    }
}

/// Reads a range with `ipnet::IpNet::from_str`: an address, a slash and a
/// prefix length of at most 32, or 128, bits.
#[verifier::external_body]
pub(crate) fn parse_range(s: &str) -> (r: Option<IpRange>)
    ensures
        r == range_of_text(s@),
        r matches Some(x) ==> x.wf(),
{
    match s.parse::<ipnet::IpNet>() {
        Ok(ipnet::IpNet::V4(n)) => Some(
            IpRange { addr: IpAddress::V4(u32::from(n.addr())), prefix: n.prefix_len() },
        ),
        Ok(ipnet::IpNet::V6(n)) => Some(
            IpRange { addr: IpAddress::V6(u128::from(n.addr())), prefix: n.prefix_len() },
        ),
        Err(_) => None,
    }
}

impl IpRange {
    /// Reads a range: an address, a slash and a prefix length.
    pub fn parse(s: &str) -> (r: Option<IpRange>)
        ensures
            r == range_of_text(s@),
            r matches Some(x) ==> x.wf(),
    {
        parse_range(s)
    }
}

/// The `Display` text of `ipnet::Ipv4Net`: the address, a slash and the prefix
/// length.
#[verifier::external_body]
fn v4_range_text(bits: u32, prefix: u8) -> (r: String)
    requires
        prefix <= 32,
    ensures
        r@ == ip_text(IpAddress::V4(bits)).push('/') + decimal(prefix as nat),
        forall|i: int|
            0 <= i < ip_text(IpAddress::V4(bits)).len() ==> is_ip_char(
                #[trigger] r@[i],
            ),
{
    ipnet::Ipv4Net::new(bits.into(), prefix).expect("prefix of at most 32 bits").to_string()
}

/// The `Display` text of `ipnet::Ipv6Net`: the address, a slash and the prefix
/// length.
#[verifier::external_body]
fn v6_range_text(bits: u128, prefix: u8) -> (r: String)
    requires
        prefix <= 128,
    ensures
        r@ == ip_text(IpAddress::V6(bits)).push('/') + decimal(prefix as nat),
        forall|i: int|
            0 <= i < ip_text(IpAddress::V6(bits)).len() ==> is_ip_char(
                #[trigger] r@[i],
            ),
{
    ipnet::Ipv6Net::new(bits.into(), prefix).expect("prefix of at most 128 bits").to_string()
}

impl IpAddress {
    /// The number of bits of the address's family.
    pub open spec fn width(self) -> nat {
        match self {
            IpAddress::V4(_) => 32,
            IpAddress::V6(_) => 128,
        }
    }

    /// Whether both addresses are of one family.
    pub open spec fn same_family(self, other: IpAddress) -> bool {
        self is V4 <==> other is V4
    }

    /// The bits of the address.
    pub open spec fn bits(self) -> u128 {
        match self {
            IpAddress::V4(b) => b as u128,
            IpAddress::V6(b) => b,
        }
    }

    fn raw(&self) -> (r: u128)
        ensures
            r == self.bits(),
    {
        match self {
            IpAddress::V4(b) => *b as u128,
            IpAddress::V6(b) => *b,
        }
    }
}

impl IpRange {
    /// The prefix is no longer than the address.
    pub open spec fn wf(self) -> bool {
        self.prefix <= self.addr.width()
    }

    /// The number of bits that vary within the range.
    pub open spec fn host_bits(self) -> u32 {
        (self.addr.width() - self.prefix) as u32
    }

    /// The address lies in the range: it is of the same family and has the
    /// same prefix.
    pub open spec fn covers(self, a: IpAddress) -> bool {
        self.addr.same_family(a) && (a.bits() >> self.host_bits()) == (self.addr.bits()
            >> self.host_bits())
    }

    /// Some address lies in both ranges: the shorter prefix is a prefix of the
    /// other.
    pub open spec fn overlaps(self, other: IpRange) -> bool {
        self.covers(other.addr) && self.prefix <= other.prefix || other.covers(self.addr)
            && other.prefix <= self.prefix
    }

    /// Every address of the child lies in this range.
    pub open spec fn covers_range(self, child: IpRange) -> bool {
        self.covers(child.addr) && self.prefix <= child.prefix
    }
}

/// Two numbers that agree above bit `i` agree above every higher bit.
proof fn shift_further(x: u128, y: u128, i: u32, j: u32)
    requires
        i <= j,
        j <= 128,
        x >> i == y >> i,
    ensures
        x >> j == y >> j,
{
    if j == 128 {
        assert(x >> 128u32 == 0) by (bit_vector);
        assert(y >> 128u32 == 0) by (bit_vector);
    } else {
        let d = (j - i) as nat;
        shift_is_division(x, i);
        shift_is_division(y, i);
        shift_is_division(x, j);
        shift_is_division(y, j);
        lemma_pow2_adds(i as nat, d);
        lemma_pow2_pos(i as nat);
        lemma_pow2_pos(d);
        lemma_div_denominator(x as int, pow2(i as nat) as int, pow2(d) as int);
        lemma_div_denominator(y as int, pow2(i as nat) as int, pow2(d) as int);
    }
}

proof fn shift_is_division(x: u128, i: u32)
    requires
        i < 128,
    ensures
        (x >> i) as int == x as int / pow2(i as nat) as int,
{
    vstd::bits::lemma_u128_shr_is_div(x, i as u128);
}

fn shift(x: u128, by: u32) -> (r: u128)
    requires
        by <= 128,
    ensures
        r == x >> by,
{
    if by == 128 {
        assert(x >> 128u32 == 0) by (bit_vector);
        0
    } else {
        x >> by
    }
}

/// Two ranges that share an address overlap.
pub proof fn sharing_ranges_overlap(x: IpRange, y: IpRange, a: IpAddress)
    requires
        x.wf(),
        y.wf(),
        x.covers(a),
        y.covers(a),
    ensures
        x.overlaps(y),
{
    if x.prefix <= y.prefix {
        shift_further(a.bits(), y.addr.bits(), y.host_bits(), x.host_bits());
    } else {
        shift_further(a.bits(), x.addr.bits(), x.host_bits(), y.host_bits());
    }
}

/// A range that covers another covers each of its addresses.
pub proof fn covered_range_covers_less(parent: IpRange, child: IpRange, a: IpAddress)
    requires
        parent.wf(),
        child.wf(),
        parent.covers_range(child),
        child.covers(a),
    ensures
        parent.covers(a),
{
    shift_further(a.bits(), child.addr.bits(), child.host_bits(), parent.host_bits());
}

impl IpRange {
    /// Whether `a` lies in the range.
    pub fn contains(&self, a: &IpAddress) -> (r: bool)
        requires
            self.wf(),
        ensures
            r == self.covers(*a),
    {
        let same = match (&self.addr, a) {
            (IpAddress::V4(_), IpAddress::V4(_)) => true,
            (IpAddress::V6(_), IpAddress::V6(_)) => true,
            _ => false,
        };
        let h: u32 = self.host_bits_exec();
        same && shift(a.raw(), h) == shift(self.addr.raw(), h)
    }

    fn host_bits_exec(&self) -> (r: u32)
        requires
            self.wf(),
        ensures
            r == self.host_bits(),
            r <= 128,
    {
        match self.addr {
            IpAddress::V4(_) => 32 - (self.prefix as u32),
            IpAddress::V6(_) => 128 - (self.prefix as u32),
        }
    }

    /// Whether every address of `child` lies in this range.
    pub fn contains_range(&self, child: &IpRange) -> (r: bool)
        requires
            self.wf(),
        ensures
            r == self.covers_range(*child),
    {
        self.contains(&child.addr) && self.prefix <= child.prefix
    }

    /// The text of the range.
    pub fn to_text(&self) -> (r: String)
        requires
            self.wf(),
        ensures
            r@ == range_text(*self),
    {
        match self.addr {
            IpAddress::V4(b) => v4_range_text(b, self.prefix),
            IpAddress::V6(b) => v6_range_text(b, self.prefix),
        }
    }
}

/// The text of a range.
pub open spec fn range_text(r: IpRange) -> Seq<char> {
    ip_text(r.addr).push('/') + decimal(r.prefix as nat)
}

impl IpAddress {
    /// The text of the address.
    pub fn to_text(&self) -> (r: String)
        ensures
            r@ == ip_text(*self),
            forall|i: int| 0 <= i < r@.len() ==> is_ip_char(#[trigger] r@[i]),
    {
        let whole = match self {
            IpAddress::V4(b) => v4_range_text(*b, 32),
            IpAddress::V6(b) => v6_range_text(*b, 128),
        };
        let chars = crate::text::to_chars(whole.as_str());
        let ghost t = ip_text(*self);
        let mut i: usize = 0;
        while i < chars.len() && chars[i] != '/'
            invariant
                chars@ == whole@,
                t == ip_text(*self),
                i <= t.len(),
                t.len() < chars@.len(),
                chars@[t.len() as int] == '/',
                forall|k: int| 0 <= k < t.len() ==> is_ip_char(#[trigger] chars@[k]),
            decreases chars@.len() - i,
        {
            i += 1;
        }
        proof {
            if i < t.len() {
                assert(is_ip_char(chars@[i as int]));
            }
            assert(chars@.subrange(0, i as int) =~= t);
        }
        crate::text::from_chars(&chars, 0, i)
    }
}

/// Coarse network classification for policy decisions. `Restricted` covers
/// addresses that are neither ordinary public nor private space: unspecified,
/// limited broadcast, reserved, documentation and benchmark ranges. It is not a
/// weaker form of `Public`.
#[derive(Clone, Copy, Debug, PartialEq, Eq, Structural)]
pub enum NetworkClass {
    Dns,
    Public,
    Private,
    Loopback,
    LinkLocal,
    Multicast,
    Restricted,
}

/// The class of a 32-bit address, by its prefix.
pub open spec fn v4_class(b: u128) -> NetworkClass {
    if b >> 24u32 == 0 || b == 0xffff_ffff {
        // 0.0.0.0/8 and 255.255.255.255
        NetworkClass::Restricted
    } else if b >> 24u32 == 127 {
        NetworkClass::Loopback
    } else if b >> 24u32 == 10 || b >> 20u32 == 0xac1 || b >> 16u32 == 0xc0a8 || b >> 22u32
        == 0x191 {
        // 10.0.0.0/8, 172.16.0.0/12, 192.168.0.0/16, 100.64.0.0/10
        NetworkClass::Private
    } else if b >> 16u32 == 0xa9fe {
        // 169.254.0.0/16
        NetworkClass::LinkLocal
    } else if b >> 28u32 == 0xe {
        // 224.0.0.0/4
        NetworkClass::Multicast
    } else if b >> 28u32 == 0xf || b >> 8u32 == 0xc00002 || b >> 8u32 == 0xc63364 || b >> 8u32
        == 0xcb0071 || b >> 17u32 == 0x6309 {
        // 240.0.0.0/4, 192.0.2.0/24, 198.51.100.0/24, 203.0.113.0/24, 198.18.0.0/15
        NetworkClass::Restricted
    } else {
        NetworkClass::Public
    }
}

/// The embedded 32-bit address of `::ffff:0:0/96`.
pub open spec fn mapped_v4(b: u128) -> Option<u128> {
    if b >> 32u32 == 0xffff {
        Some(b & 0xffff_ffff)
    } else {
        None
    }
}

/// The class of a 128-bit address: an embedded address counts as itself, and
/// the rest goes by prefix.
pub open spec fn v6_class(b: u128) -> NetworkClass {
    if b == 0 {
        NetworkClass::Restricted
    } else if b == 1 {
        NetworkClass::Loopback
    } else if let Some(v4) = mapped_v4(b) {
        v4_class(v4)
    } else if b >> 32u32 == 0 {
        // ::/96
        NetworkClass::Restricted
    } else if b >> 120u32 == 0xff {
        // ff00::/8
        NetworkClass::Multicast
    } else if b >> 121u32 == 0x7e {
        // fc00::/7
        NetworkClass::Private
    } else if b >> 118u32 == 0x3fa {
        // fe80::/10
        NetworkClass::LinkLocal
    } else if b >> 96u32 == 0x20010db8 {
        // 2001:db8::/32
        NetworkClass::Restricted
    } else {
        NetworkClass::Public
    }
}

/// The class of one address.
pub open spec fn ip_class(a: IpAddress) -> NetworkClass {
    match a {
        IpAddress::V4(b) => v4_class(b as u128),
        IpAddress::V6(b) => v6_class(b),
    }
}

fn classify_v4(b: u128) -> (r: NetworkClass)
    ensures
        r == v4_class(b),
{
    if b >> 24u32 == 0 || b == 0xffff_ffff {
        NetworkClass::Restricted
    } else if b >> 24u32 == 127 {
        NetworkClass::Loopback
    } else if b >> 24u32 == 10 || b >> 20u32 == 0xac1 || b >> 16u32 == 0xc0a8 || b >> 22u32
        == 0x191 {
        NetworkClass::Private
    } else if b >> 16u32 == 0xa9fe {
        NetworkClass::LinkLocal
    } else if b >> 28u32 == 0xe {
        NetworkClass::Multicast
    } else if b >> 28u32 == 0xf || b >> 8u32 == 0xc00002 || b >> 8u32 == 0xc63364 || b >> 8u32
        == 0xcb0071 || b >> 17u32 == 0x6309 {
        NetworkClass::Restricted
    } else {
        NetworkClass::Public
    }
}

/// The class of one address: special-purpose ranges are recognized before the
/// `Public` fallback.
pub fn classify_ip(a: IpAddress) -> (r: NetworkClass)
    ensures
        r == ip_class(a),
{
    let b = match a {
        IpAddress::V4(b) => {
            return classify_v4(b as u128);
        },
        IpAddress::V6(b) => b,
    };
    if b == 0 {
        NetworkClass::Restricted
    } else if b == 1 {
        NetworkClass::Loopback
    } else if b >> 32u32 == 0xffff {
        classify_v4(b & 0xffff_ffff)
    } else if b >> 32u32 == 0 {
        NetworkClass::Restricted
    } else if b >> 120u32 == 0xff {
        NetworkClass::Multicast
    } else if b >> 121u32 == 0x7e {
        NetworkClass::Private
    } else if b >> 118u32 == 0x3fa {
        NetworkClass::LinkLocal
    } else if b >> 96u32 == 0x20010db8 {
        NetworkClass::Restricted
    } else {
        NetworkClass::Public
    }
}

pub open spec fn v4_range(bits: u32, prefix: u8) -> IpRange {
    IpRange { addr: IpAddress::V4(bits), prefix }
}

pub open spec fn v6_range(bits: u128, prefix: u8) -> IpRange {
    IpRange { addr: IpAddress::V6(bits), prefix }
}

/// Special-purpose ranges, most restricted first.
pub open spec fn special_nets() -> Seq<(IpRange, NetworkClass)> {
    seq![
        (v4_range(0x7f00_0000, 8), NetworkClass::Loopback),
        (v6_range(1, 128), NetworkClass::Loopback),
        (v6_range(0xffff_0000_0000, 96), NetworkClass::Loopback),
        (v4_range(0, 8), NetworkClass::Restricted),
        (v6_range(0, 128), NetworkClass::Restricted),
        (v4_range(0xffff_ffff, 32), NetworkClass::Restricted),
        (v4_range(0xf000_0000, 4), NetworkClass::Restricted),
        (v4_range(0xc000_0200, 24), NetworkClass::Restricted),
        (v4_range(0xc633_6400, 24), NetworkClass::Restricted),
        (v4_range(0xcb00_7100, 24), NetworkClass::Restricted),
        (v4_range(0xc612_0000, 15), NetworkClass::Restricted),
        (v6_range(0x2001_0db8_0000_0000_0000_0000_0000_0000, 32), NetworkClass::Restricted),
        (v4_range(0x0a00_0000, 8), NetworkClass::Private),
        (v4_range(0xac10_0000, 12), NetworkClass::Private),
        (v4_range(0xc0a8_0000, 16), NetworkClass::Private),
        (v4_range(0x6440_0000, 10), NetworkClass::Private),
        (v6_range(0xfc00_0000_0000_0000_0000_0000_0000_0000, 7), NetworkClass::Private),
        (v4_range(0xa9fe_0000, 16), NetworkClass::LinkLocal),
        (v6_range(0xfe80_0000_0000_0000_0000_0000_0000_0000, 10), NetworkClass::LinkLocal),
        (v4_range(0xe000_0000, 4), NetworkClass::Multicast),
        (v6_range(0xff00_0000_0000_0000_0000_0000_0000_0000, 8), NetworkClass::Multicast),
    ]
}

fn v4_net(bits: u32, prefix: u8) -> (r: IpRange)
    ensures
        r == v4_range(bits, prefix),
{
    IpRange { addr: IpAddress::V4(bits), prefix }
}

fn v6_net(bits: u128, prefix: u8) -> (r: IpRange)
    ensures
        r == v6_range(bits, prefix),
{
    IpRange { addr: IpAddress::V6(bits), prefix }
}

fn special_table() -> (r: Vec<(IpRange, NetworkClass)>)
    ensures
        r@ == special_nets(),
        forall|i: int| 0 <= i < r@.len() ==> (#[trigger] r@[i]).0.wf(),
{
    let v: Vec<(IpRange, NetworkClass)> = vec![
        (v4_net(0x7f00_0000, 8), NetworkClass::Loopback),
        (v6_net(1, 128), NetworkClass::Loopback),
        (v6_net(0xffff_0000_0000, 96), NetworkClass::Loopback),
        (v4_net(0, 8), NetworkClass::Restricted),
        (v6_net(0, 128), NetworkClass::Restricted),
        (v4_net(0xffff_ffff, 32), NetworkClass::Restricted),
        (v4_net(0xf000_0000, 4), NetworkClass::Restricted),
        (v4_net(0xc000_0200, 24), NetworkClass::Restricted),
        (v4_net(0xc633_6400, 24), NetworkClass::Restricted),
        (v4_net(0xcb00_7100, 24), NetworkClass::Restricted),
        (v4_net(0xc612_0000, 15), NetworkClass::Restricted),
        (v6_net(0x2001_0db8_0000_0000_0000_0000_0000_0000, 32), NetworkClass::Restricted),
        (v4_net(0x0a00_0000, 8), NetworkClass::Private),
        (v4_net(0xac10_0000, 12), NetworkClass::Private),
        (v4_net(0xc0a8_0000, 16), NetworkClass::Private),
        (v4_net(0x6440_0000, 10), NetworkClass::Private),
        (v6_net(0xfc00_0000_0000_0000_0000_0000_0000_0000, 7), NetworkClass::Private),
        (v4_net(0xa9fe_0000, 16), NetworkClass::LinkLocal),
        (v6_net(0xfe80_0000_0000_0000_0000_0000_0000_0000, 10), NetworkClass::LinkLocal),
        (v4_net(0xe000_0000, 4), NetworkClass::Multicast),
        (v6_net(0xff00_0000_0000_0000_0000_0000_0000_0000, 8), NetworkClass::Multicast),
    ];
    proof {
        assert(v@ =~= special_nets());
    }
    v
}

/// A range that lies within `::ffff:0:0/96`, as the range of its embedded
/// addresses; any other range as it is.
pub open spec fn unwrap_mapped(net: IpRange) -> IpRange {
    match net.addr {
        IpAddress::V6(b) if net.prefix >= 96 && b >> 32u32 == 0xffff => IpRange {
            addr: IpAddress::V4(
                (((b >> net.host_bits()) << net.host_bits()) & 0xffff_ffff) as u32,
            ),
            prefix: (net.prefix - 96) as u8,
        },
        _ => net,
    }
}

/// The class of the first special-purpose range from `i` on that `net`
/// overlaps.
pub open spec fn special_class(net: IpRange, i: int) -> Option<NetworkClass>
    decreases special_nets().len() - i,
{
    if i < 0 || i >= special_nets().len() {
        None
    } else if net.overlaps(special_nets()[i].0) {
        Some(special_nets()[i].1)
    } else {
        special_class(net, i + 1)
    }
}

/// The class of a range: that of its least-trusted possible address.
pub open spec fn range_class(net: IpRange) -> NetworkClass {
    let n = unwrap_mapped(net);
    match special_class(n, 0) {
        Some(c) => c,
        None => ip_class(n.addr),
    }
}

fn nets_overlap(a: &IpRange, b: &IpRange) -> (r: bool)
    requires
        a.wf(),
        b.wf(),
    ensures
        r == a.overlaps(*b),
{
    a.contains_range(b) || b.contains_range(a)
}

fn unwrap_mapped_range(net: IpRange) -> (r: IpRange)
    requires
        net.wf(),
    ensures
        r == unwrap_mapped(net),
        r.wf(),
{
    match net.addr {
        IpAddress::V6(b) => {
            if net.prefix >= 96 && b >> 32u32 == 0xffff {
                let h: u32 = net.host_bits_exec();
                let low: u128 = ((b >> h) << h) & 0xffff_ffff;
                assert(low <= 0xffff_ffff) by (bit_vector)
                    requires
                        low == ((b >> h) << h) & 0xffff_ffff,
                ;
                IpRange { addr: IpAddress::V4(low as u32), prefix: net.prefix - 96 }
            } else {
                net
            }
        },
        IpAddress::V4(_) => net,
    }
}

/// The class of a range: a range that merely contains a loopback, private,
/// link-local, multicast or restricted address is reported as that class.
pub fn classify_net(net: IpRange) -> (r: NetworkClass)
    requires
        net.wf(),
    ensures
        r == range_class(net),
{
    let n = unwrap_mapped_range(net);
    let table = special_table();
    let mut i: usize = 0;
    while i < table.len()
        invariant
            n.wf(),
            n == unwrap_mapped(net),
            i <= table@.len(),
            table@ == special_nets(),
            forall|k: int| 0 <= k < table@.len() ==> (#[trigger] table@[k]).0.wf(),
            special_class(n, 0) == special_class(n, i as int),
        decreases table@.len() - i,
    {
        if nets_overlap(&n, &table[i].0) {
            return table[i].1;
        }
        i += 1;
    }
    classify_ip(n.addr)
}

/// The prefixes of the special-purpose ranges, as numbers.
proof fn special_prefixes()
    by (bit_vector)
    ensures
        0x7f00_0000u128 >> 24u32 == 127u128,
        0x0u128 >> 24u32 == 0u128,
        0xf000_0000u128 >> 28u32 == 0xfu128,
        0xc000_0200u128 >> 8u32 == 0xc00002u128,
        0xc633_6400u128 >> 8u32 == 0xc63364u128,
        0xcb00_7100u128 >> 8u32 == 0xcb0071u128,
        0xc612_0000u128 >> 17u32 == 0x6309u128,
        0x0a00_0000u128 >> 24u32 == 10u128,
        0xac10_0000u128 >> 20u32 == 0xac1u128,
        0xc0a8_0000u128 >> 16u32 == 0xc0a8u128,
        0x6440_0000u128 >> 22u32 == 0x191u128,
        0xa9fe_0000u128 >> 16u32 == 0xa9feu128,
        0xe000_0000u128 >> 28u32 == 0xeu128,
        0xffff_0000_0000u128 >> 32u32 == 0xffffu128,
        0x2001_0db8_0000_0000_0000_0000_0000_0000u128 >> 96u32 == 0x20010db8u128,
        0xfc00_0000_0000_0000_0000_0000_0000_0000u128 >> 121u32 == 0x7eu128,
        0xfe80_0000_0000_0000_0000_0000_0000_0000u128 >> 118u32 == 0x3fau128,
        0xff00_0000_0000_0000_0000_0000_0000_0000u128 >> 120u32 == 0xffu128,
{
}

/// A range that overlaps a special-purpose range from position `i` on has a
/// class, which is not `Public`.
proof fn special_class_found(n: IpRange, i: int, k: int)
    requires
        0 <= i <= k < special_nets().len(),
        n.overlaps(special_nets()[k].0),
    ensures
        special_class(n, i) is Some,
        special_class(n, i)->0 != NetworkClass::Public,
    decreases k - i,
{
    if !n.overlaps(special_nets()[i].0) {
        special_class_found(n, i + 1, k);
    }
}

/// No special-purpose class is `Public`.
proof fn special_class_is_special(n: IpRange, i: int)
    requires
        0 <= i,
        special_class(n, i) is Some,
    ensures
        special_class(n, i)->0 != NetworkClass::Public,
    decreases special_nets().len() - i,
{
    if i < special_nets().len() && !n.overlaps(special_nets()[i].0) {
        special_class_is_special(n, i + 1);
    }
}

/// Every 32-bit address that is not public lies in a special-purpose range.
proof fn special_v4(b: u32) -> (k: int)
    requires
        v4_class(b as u128) != NetworkClass::Public,
    ensures
        0 <= k < special_nets().len(),
        special_nets()[k].0.covers(IpAddress::V4(b)),
        special_nets()[k].0.wf(),
{
    special_prefixes();
    let x = b as u128;
    if x >> 24u32 == 0 {
        3
    } else if b == 0xffff_ffff {
        5
    } else if x >> 24u32 == 127 {
        0
    } else if x >> 24u32 == 10 {
        12
    } else if x >> 20u32 == 0xac1 {
        13
    } else if x >> 16u32 == 0xc0a8 {
        14
    } else if x >> 22u32 == 0x191 {
        15
    } else if x >> 16u32 == 0xa9fe {
        17
    } else if x >> 28u32 == 0xe {
        19
    } else if x >> 28u32 == 0xf {
        6
    } else if x >> 8u32 == 0xc00002 {
        7
    } else if x >> 8u32 == 0xc63364 {
        8
    } else if x >> 8u32 == 0xcb0071 {
        9
    } else {
        10
    }
}

/// A range of 32-bit addresses that holds an address which is not public is
/// not public.
proof fn v4_range_fails_closed(n: IpRange, b: u32)
    requires
        n.wf(),
        n.addr is V4,
        n.covers(IpAddress::V4(b)),
        v4_class(b as u128) != NetworkClass::Public,
    ensures
        special_class(n, 0) is Some,
        special_class(n, 0)->0 != NetworkClass::Public,
{
    let k = special_v4(b);
    sharing_ranges_overlap(n, special_nets()[k].0, IpAddress::V4(b));
    special_class_found(n, 0, k);
}

/// A range that contains an address which is not public is not classified as
/// public: a spanning range can never be mistaken for public space.
pub proof fn range_classification_fails_closed(net: IpRange, a: IpAddress)
    requires
        net.wf(),
        net.covers(a),
        ip_class(a) != NetworkClass::Public,
    ensures
        range_class(net) != NetworkClass::Public,
{
    special_prefixes();
    match (net.addr, a) {
        (IpAddress::V4(_), IpAddress::V4(b)) => {
            v4_range_fails_closed(net, b);
        },
        (IpAddress::V6(nb), IpAddress::V6(b)) => {
            let n = unwrap_mapped(net);
            let h = net.host_bits();
            if n != net {
                // The range lies in the embedded space, and so does `a`.
                shift_further(b, nb, h, 32);
                let low = (((nb >> h) << h) & 0xffff_ffff) as u128;
                let v4 = (b & 0xffff_ffff) as u128;
                assert(low <= 0xffff_ffff && v4 <= 0xffff_ffff && (v4 >> h) == (low >> h))
                    by (bit_vector)
                    requires
                        h <= 32,
                        b >> h == nb >> h,
                        low == ((nb >> h) << h) & 0xffff_ffff,
                        v4 == b & 0xffff_ffff,
                ;
                assert(n.host_bits() == h);
                assert(mapped_v4(b) == Some(v4));
                assert(b != 0 && b != 1) by {
                    assert(0u128 >> 32u32 == 0 && 1u128 >> 32u32 == 0) by (bit_vector);
                }
                v4_range_fails_closed(n, v4 as u32);
            } else if special_class(net, 0) is Some {
                special_class_is_special(net, 0);
            } else {
                // No special-purpose range overlaps.
                if b >> 32u32 == 0 {
                    if net.prefix >= 96 {
                        shift_further(b, nb, h, 32);
                        assert(ip_class(net.addr) != NetworkClass::Public);
                    } else {
                        assert(b >> h == 0u128 >> h) by (bit_vector)
                            requires
                                b >> 32u32 == 0,
                                32 <= h,
                        ;
                        assert(net.covers(IpAddress::V6(0)));
                        sharing_with(net, 4, IpAddress::V6(0));
                    }
                } else {
                    let k: int = if b >> 32u32 == 0xffff {
                        2
                    } else if b >> 120u32 == 0xff {
                        20
                    } else if b >> 121u32 == 0x7e {
                        16
                    } else if b >> 118u32 == 0x3fa {
                        18
                    } else {
                        11
                    };
                    assert(0u128 >> 32u32 == 0 && 1u128 >> 32u32 == 0) by (bit_vector);
                    sharing_with(net, k, a);
                }
            }
        },
        _ => {},
    }
}

proof fn sharing_with(net: IpRange, k: int, a: IpAddress)
    requires
        0 <= k < special_nets().len(),
        net.wf(),
        net.covers(a),
        special_nets()[k].0.wf(),
        special_nets()[k].0.covers(a),
    ensures
        special_class(net, 0) is Some,
{
    sharing_ranges_overlap(net, special_nets()[k].0, a);
    special_class_found(net, 0, k);
}

/// Every address of a special-purpose range is special, but for those that
/// embed a 32-bit address.
proof fn special_addresses(k: int, a: IpAddress)
    requires
        0 <= k < special_nets().len(),
        k != 2,
        special_nets()[k].0.covers(a),
    ensures
        ip_class(a) != NetworkClass::Public,
{
    special_prefixes();
    let b = a.bits();
    assert(b >> 0u32 == b && 1u128 >> 0u32 == 1 && 0u128 >> 0u32 == 0 && 0xffff_ffffu128 >> 0u32
        == 0xffff_ffff) by (bit_vector);
    assert(b >> 32u32 == 0xffff ==> b >> 121u32 == 0 && b >> 120u32 == 0 && b >> 118u32 == 0
        && b >> 96u32 == 0) by (bit_vector);
    assert(0u128 >> 32u32 == 0 && 1u128 >> 32u32 == 0) by (bit_vector);
}

/// The first special-purpose range that `n` overlaps.
proof fn special_overlap(n: IpRange, i: int) -> (k: int)
    requires
        0 <= i,
        special_class(n, i) is Some,
    ensures
        i <= k < special_nets().len(),
        n.overlaps(special_nets()[k].0),
    decreases special_nets().len() - i,
{
    if n.overlaps(special_nets()[i].0) {
        i
    } else {
        special_overlap(n, i + 1)
    }
}

/// An address that makes an unwrapped range special.
proof fn special_witness(n: IpRange) -> (a: IpAddress)
    requires
        n.wf(),
        !(n.addr is V6 && n.prefix >= 96 && n.addr.bits() >> 32u32 == 0xffff),
        special_class(n, 0) is Some || ip_class(n.addr) != NetworkClass::Public,
    ensures
        n.covers(a),
        ip_class(a) != NetworkClass::Public,
{
    if special_class(n, 0) is Some {
        let k = special_overlap(n, 0);
        let net = special_nets()[k].0;
        if n.covers(net.addr) {
            if k == 2 {
                special_prefixes();
                let b = 0xffff_0000_0000u128;
                assert(b & 0xffff_ffff == 0 && 0u128 >> 24u32 == 0 && b != 0 && b != 1)
                    by (bit_vector)
                    requires
                        b == 0xffff_0000_0000u128,
                ;
                assert(mapped_v4(b) == Some(0u128));
            } else {
                special_addresses(k, net.addr);
            }
            net.addr
        } else {
            if k == 2 {
                special_prefixes();
                assert(net.host_bits() == 32);
            } else {
                special_addresses(k, n.addr);
            }
            n.addr
        }
    } else {
        n.addr
    }
}

/// A range is classified as public exactly if each of its addresses is: a
/// range of public addresses alone is public, and one that holds a single
/// loopback, private, link-local, multicast or restricted address is not.
pub proof fn public_ranges_hold_public_addresses(net: IpRange)
    requires
        net.wf(),
    ensures
        range_class(net) == NetworkClass::Public <==> forall|a: IpAddress| #[trigger]
            net.covers(a) ==> ip_class(a) == NetworkClass::Public,
{
    if range_class(net) == NetworkClass::Public {
        assert forall|a: IpAddress| #[trigger] net.covers(a) implies ip_class(a)
            == NetworkClass::Public by {
            if ip_class(a) != NetworkClass::Public {
                range_classification_fails_closed(net, a);
            }
        }
    } else {
        let n = unwrap_mapped(net);
        if n == net {
            let a = special_witness(net);
            assert(net.covers(a));
        } else {
            let nb = net.addr.bits();
            let h = net.host_bits();
            let low: u128 = ((nb >> h) << h) & 0xffff_ffff;
            assert(low <= 0xffff_ffff) by (bit_vector)
                requires
                    low == ((nb >> h) << h) & 0xffff_ffff,
            ;
            assert(n.host_bits() == h);
            let v4 = special_witness(n);
            let x = v4.bits();
            let wide: u128 = 0xffff_0000_0000u128 | x;
            assert(wide >> h == nb >> h && wide & 0xffff_ffff == x && wide >> 32u32 == 0xffff
                && wide != 0 && wide != 1) by (bit_vector)
                requires
                    h <= 32,
                    x <= 0xffff_ffff,
                    x >> h == low >> h,
                    low == ((nb >> h) << h) & 0xffff_ffff,
                    nb >> 32u32 == 0xffff,
                    wide == 0xffff_0000_0000u128 | x,
            ;
            let a = IpAddress::V6(wide);
            assert(mapped_v4(wide) == Some(x));
            assert(net.covers(a));
        }
    }
}

/// The class of a 32-bit address goes by where it lies: loopback from 127.0.0.0,
/// private from 10.0.0.0, 172.16.0.0, 192.168.0.0 and 100.64.0.0, link-local
/// from 169.254.0.0, multicast from 224.0.0.0, restricted below 1.0.0.0, from
/// 240.0.0.0 on and in what is set aside for documents and benchmarks, and
/// public everywhere else. Embedded in a 128-bit address it has the same class.
pub proof fn v4_classes_go_by_place(b: u32)
    ensures
        ({
            let c = ip_class(IpAddress::V4(b));
            &&& c == NetworkClass::Loopback <==> 0x7f00_0000 <= b <= 0x7fff_ffff
            &&& c == NetworkClass::Private <==> 0x0a00_0000 <= b <= 0x0aff_ffff || 0xac10_0000 <= b
                <= 0xac1f_ffff || 0xc0a8_0000 <= b <= 0xc0a8_ffff || 0x6440_0000 <= b
                <= 0x647f_ffff
            &&& c == NetworkClass::LinkLocal <==> 0xa9fe_0000 <= b <= 0xa9fe_ffff
            &&& c == NetworkClass::Multicast <==> 0xe000_0000 <= b <= 0xefff_ffff
            &&& c == NetworkClass::Restricted <==> b <= 0x00ff_ffff || 0xf000_0000 <= b
                || 0xc000_0200 <= b <= 0xc000_02ff || 0xc633_6400 <= b <= 0xc633_64ff
                || 0xcb00_7100 <= b <= 0xcb00_71ff || 0xc612_0000 <= b <= 0xc613_ffff
            &&& c != NetworkClass::Dns
            &&& ip_class(IpAddress::V6((0xffff_0000_0000 + b) as u128)) == c
        }),
{
    let x = b as u128;
    let y = (0xffff_0000_0000 + b) as u128;
    assert(x <= 0xffff_ffff);
    assert({
        &&& (x >> 24u32 == 0) == (x <= 0x00ff_ffffu128)
        &&& (x >> 24u32 == 127) == (0x7f00_0000u128 <= x && x <= 0x7fff_ffffu128)
        &&& (x >> 24u32 == 10) == (0x0a00_0000u128 <= x && x <= 0x0aff_ffffu128)
        &&& (x >> 20u32 == 0xac1) == (0xac10_0000u128 <= x && x <= 0xac1f_ffffu128)
        &&& (x >> 16u32 == 0xc0a8) == (0xc0a8_0000u128 <= x && x <= 0xc0a8_ffffu128)
        &&& (x >> 22u32 == 0x191) == (0x6440_0000u128 <= x && x <= 0x647f_ffffu128)
        &&& (x >> 16u32 == 0xa9fe) == (0xa9fe_0000u128 <= x && x <= 0xa9fe_ffffu128)
        &&& (x >> 28u32 == 0xe) == (0xe000_0000u128 <= x && x <= 0xefff_ffffu128)
        &&& (x >> 28u32 == 0xf) == (0xf000_0000u128 <= x && x <= 0xffff_ffffu128)
        &&& (x >> 8u32 == 0xc00002) == (0xc000_0200u128 <= x && x <= 0xc000_02ffu128)
        &&& (x >> 8u32 == 0xc63364) == (0xc633_6400u128 <= x && x <= 0xc633_64ffu128)
        &&& (x >> 8u32 == 0xcb0071) == (0xcb00_7100u128 <= x && x <= 0xcb00_71ffu128)
        &&& (x >> 17u32 == 0x6309) == (0xc612_0000u128 <= x && x <= 0xc613_ffffu128)
    }) by (bit_vector);
    assert(y >> 32u32 == 0xffff && y & 0xffff_ffff == x) by (bit_vector)
        requires
            y == 0xffff_0000_0000u128 + x,
            x <= 0xffff_ffffu128,
    ;
}

/// The class of a 128-bit address without an embedded one goes by where it lies
/// too: ::1 is loopback, what else is below 2^32 is restricted and so is what is
/// set aside for documents, fc00::/7 is private, fe80::/10 link-local, ff00::/8
/// multicast, and the rest public.
pub proof fn v6_classes_go_by_place(b: u128)
    requires
        !(0xffff_0000_0000 <= b <= 0xffff_ffff_ffff),
    ensures
        ({
            let c = ip_class(IpAddress::V6(b));
            &&& c == NetworkClass::Loopback <==> b == 1
            &&& c == NetworkClass::Private <==> 0xfc00_0000_0000_0000_0000_0000_0000_0000 <= b
                <= 0xfdff_ffff_ffff_ffff_ffff_ffff_ffff_ffff
            &&& c == NetworkClass::LinkLocal <==> 0xfe80_0000_0000_0000_0000_0000_0000_0000 <= b
                <= 0xfebf_ffff_ffff_ffff_ffff_ffff_ffff_ffff
            &&& c == NetworkClass::Multicast <==> 0xff00_0000_0000_0000_0000_0000_0000_0000 <= b
            &&& c == NetworkClass::Restricted <==> (b <= 0xffff_ffff && b != 1)
                || 0x2001_0db8_0000_0000_0000_0000_0000_0000 <= b
                <= 0x2001_0db8_ffff_ffff_ffff_ffff_ffff_ffff
            &&& c != NetworkClass::Dns
        }),
{
    assert({
        &&& (b >> 32u32 == 0xffff) == (0xffff_0000_0000u128 <= b && b <= 0xffff_ffff_ffffu128)
        &&& (b >> 32u32 == 0) == (b <= 0xffff_ffffu128)
        &&& (b >> 120u32 == 0xff) == (0xff00_0000_0000_0000_0000_0000_0000_0000u128 <= b)
        &&& (b >> 121u32 == 0x7e) == (0xfc00_0000_0000_0000_0000_0000_0000_0000u128 <= b && b
            <= 0xfdff_ffff_ffff_ffff_ffff_ffff_ffff_ffffu128)
        &&& (b >> 118u32 == 0x3fa) == (0xfe80_0000_0000_0000_0000_0000_0000_0000u128 <= b && b
            <= 0xfebf_ffff_ffff_ffff_ffff_ffff_ffff_ffffu128)
        &&& (b >> 96u32 == 0x20010db8) == (0x2001_0db8_0000_0000_0000_0000_0000_0000u128 <= b && b
            <= 0x2001_0db8_ffff_ffff_ffff_ffff_ffff_ffffu128)
    }) by (bit_vector);
}

} // verus!
