//! Plain-value model of IP addresses and socket addresses.
//!
//! An IPv4 address is a 32-bit value, an IPv6 address a 128-bit value, with
//! the usual big-endian reading of the textual forms.  Keeping addresses as
//! integers lets every predicate of the matcher be stated and proved directly
//! over the values.

use vstd::prelude::*;

verus! {

/// An IP address: a 32-bit IPv4 value or a 128-bit IPv6 value.
///
/// Two addresses are equal exactly when they have the same family and the
/// same numeric value; in particular an IPv4 address is never equal to its
/// IPv4-mapped IPv6 form (`::ffff:a.b.c.d`), which is why hosts mirror every
/// IPv4 address with its mapped form (see `host::Host::add_ip`).
#[derive(Clone, Copy, PartialEq, Eq, Structural, Debug)]
pub enum IpAddr {
    V4(u32),
    V6(u128),
}

/// The numeric value of the dotted quad `a.b.c.d`.
pub open spec fn ipv4_value(a: u8, b: u8, c: u8, d: u8) -> u32 {
    ((a as int) * 0x100_0000 + (b as int) * 0x1_0000 + (c as int) * 0x100 + (d as int)) as u32
}

/// The IPv4-mapped IPv6 value `::ffff:a.b.c.d` of an IPv4 value.
pub open spec fn v4_mapped_value(n: u32) -> u128 {
    (0xffff_0000_0000 + (n as int)) as u128
}

impl IpAddr {
    /// The IPv4 address `a.b.c.d`.
    pub fn v4(a: u8, b: u8, c: u8, d: u8) -> (r: IpAddr)
        ensures
            r == IpAddr::V4(ipv4_value(a, b, c, d)),
    {
        IpAddr::V4(
            (a as u32) * 0x100_0000 + (b as u32) * 0x1_0000 + (c as u32) * 0x100 + (d as u32),
        )
    }

    pub open spec fn is_v4(self) -> bool {
        self is V4
    }

    pub open spec fn is_v6(self) -> bool {
        self is V6
    }

    /// True of addresses of the IPv4 family.
    pub fn is_ipv4(&self) -> (r: bool)
        ensures
            r == self.is_v4(),
    {
        match self {
            IpAddr::V4(_) => true,
            IpAddr::V6(_) => false,
        }
    }

    /// True of addresses of the IPv6 family.
    pub fn is_ipv6(&self) -> (r: bool)
        ensures
            r == self.is_v6(),
    {
        match self {
            IpAddr::V4(_) => false,
            IpAddr::V6(_) => true,
        }
    }

    /// A loopback address: any `127.x.y.z` for IPv4, exactly `::1` for IPv6.
    /// The IPv4-mapped form of an IPv4 loopback address does not count as
    /// loopback, matching how such addresses are compared everywhere else.
    pub open spec fn is_loopback_spec(self) -> bool {
        match self {
            IpAddr::V4(n) => n / 0x100_0000 == 127,
            IpAddr::V6(n) => n == 1,
        }
    }

    pub fn is_loopback(&self) -> (r: bool)
        ensures
            r == self.is_loopback_spec(),
    {
        match self {
            IpAddr::V4(n) => *n / 0x100_0000 == 127,
            IpAddr::V6(n) => *n == 1,
        }
    }

    /// The IPv4-mapped IPv6 equivalent of an IPv4 address; IPv6 addresses are
    /// returned unchanged.
    pub open spec fn to_v6_mapped_spec(self) -> IpAddr {
        match self {
            IpAddr::V4(n) => IpAddr::V6(v4_mapped_value(n)),
            IpAddr::V6(n) => IpAddr::V6(n),
        }
    }

    pub fn to_v6_mapped(&self) -> (r: IpAddr)
        ensures
            r == self.to_v6_mapped_spec(),
    {
        match self {
            IpAddr::V4(n) => IpAddr::V6(0xffff_0000_0000u128 + (*n as u128)),
            IpAddr::V6(n) => IpAddr::V6(*n),
        }
    }
}

/// A socket address: an IP address together with a port.
#[derive(Clone, Copy, PartialEq, Eq, Structural, Debug)]
pub struct SocketAddr {
    pub ip: IpAddr,
    pub port: u16,
}

impl SocketAddr {
    pub fn new(ip: IpAddr, port: u16) -> (r: SocketAddr)
        ensures
            r == (SocketAddr { ip, port }),
    {
        SocketAddr { ip, port }
    }

    pub fn ip(&self) -> (r: IpAddr)
        ensures
            r == self.ip,
    {
        self.ip
    }

    pub fn port(&self) -> (r: u16)
        ensures
            r == self.port,
    {
        self.port
    }

    pub fn is_ipv4(&self) -> (r: bool)
        ensures
            r == self.ip.is_v4(),
    {
        self.ip.is_ipv4()
    }

    pub fn is_ipv6(&self) -> (r: bool)
        ensures
            r == self.ip.is_v6(),
    {
        self.ip.is_ipv6()
    }
}

/// True when the sequence of addresses holds the given address.
pub open spec fn ips_contain(ips: Seq<IpAddr>, ip: IpAddr) -> bool {
    ips.contains(ip)
}

/// Linear search of an address list, the only address comparison the matcher
/// needs.
pub fn contains_ip(ips: &Vec<IpAddr>, ip: &IpAddr) -> (r: bool)
    ensures
        r == ips_contain(ips@, *ip),
{
    let mut i: usize = 0;
    while i < ips.len()
        invariant
            0 <= i <= ips@.len(),
            forall|k: int| 0 <= k < i ==> ips@[k] != *ip,
        decreases ips@.len() - i,
    {
        if ips[i] == *ip {
            return true;
        }
        i += 1;
    }
    false
}

} // verus!
// Textual forms.  The grammars below are the reference for every socket
// field the parsers read: dotted-quad IPv4, IPv6 with one optional `::`
// compression and an optional embedded dotted quad in the last group, and
// the two socket forms `a.b.c.d:port` and `[v6]:port`.

verus! {

/// A decimal octet: one to three digits valued up to 255.
pub open spec fn valid_octet(p: Seq<char>) -> bool {
    &&& 1 <= p.len() <= 3
    &&& crate::text::all_digits(p)
    &&& crate::text::dec_value(p) <= 255
}

/// The IPv4 value of four octets.
pub open spec fn ipv4_from_octets(a: int, b: int, c: int, d: int) -> u32 {
    (a * 0x100_0000 + b * 0x1_0000 + c * 0x100 + d) as u32
}

/// The dotted-quad grammar: four octets separated by dots.
pub open spec fn parse_ipv4_spec(s: Seq<char>) -> Option<IpAddr> {
    let parts = crate::text::spec_split(s, '.');
    if parts.len() == 4 && valid_octet(parts[0]) && valid_octet(parts[1]) && valid_octet(parts[2])
        && valid_octet(parts[3]) {
        Some(
            IpAddr::V4(
                ipv4_from_octets(
                    crate::text::dec_value(parts[0]),
                    crate::text::dec_value(parts[1]),
                    crate::text::dec_value(parts[2]),
                    crate::text::dec_value(parts[3]),
                ),
            ),
        )
    } else {
        None
    }
}

/// One octet of a dotted quad.
fn parse_octet(s: &str) -> (r: Option<u8>)
    ensures
        match r {
            Some(v) => valid_octet(s@) && v as int == crate::text::dec_value(s@),
            None => !valid_octet(s@),
        },
{
    let len = s.unicode_len();
    if len < 1 || len > 3 {
        return None;
    }
    match crate::text::parse_u32(s) {
        Some(v) => if v <= 255 {
            Some(v as u8)
        } else {
            None
        },
        None => {
            proof {
                if crate::text::parse_dec_spec(s@) is Some {
                    assert(crate::text::dec_value(s@) > u32::MAX);
                }
            }
            None
        },
    }
}

/// Parse a dotted-quad IPv4 address.
pub fn parse_ipv4(s: &str) -> (r: Option<IpAddr>)
    ensures
        r == parse_ipv4_spec(s@),
{
    let parts = crate::text::split_str(s, '.');
    proof {
        assert(parts.deep_view().len() == parts@.len());
    }
    if parts.len() != 4 {
        return None;
    }
    proof {
        assert(parts@[0]@ == parts.deep_view()[0]);
        assert(parts@[1]@ == parts.deep_view()[1]);
        assert(parts@[2]@ == parts.deep_view()[2]);
        assert(parts@[3]@ == parts.deep_view()[3]);
    }
    let a = match parse_octet(parts[0].as_str()) {
        Some(v) => v,
        None => {
            return None;
        },
    };
    let b = match parse_octet(parts[1].as_str()) {
        Some(v) => v,
        None => {
            return None;
        },
    };
    let c = match parse_octet(parts[2].as_str()) {
        Some(v) => v,
        None => {
            return None;
        },
    };
    let d = match parse_octet(parts[3].as_str()) {
        Some(v) => v,
        None => {
            return None;
        },
    };
    Some(
        IpAddr::V4(
            (a as u32) * 0x100_0000 + (b as u32) * 0x1_0000 + (c as u32) * 0x100 + (d as u32),
        ),
    )
}

/// A hexadecimal digit and its value.
pub open spec fn is_hex_digit(c: char) -> bool {
    ||| 48 <= c as u32 <= 57
    ||| 97 <= c as u32 <= 102
    ||| 65 <= c as u32 <= 70
}

pub open spec fn hex_digit_val(c: char) -> int {
    if 48 <= c as u32 <= 57 {
        c as u32 - 48
    } else if 97 <= c as u32 <= 102 {
        c as u32 - 87
    } else {
        c as u32 - 55
    }
}

pub open spec fn all_hex_digits(s: Seq<char>) -> bool {
    forall|i: int| 0 <= i < s.len() ==> is_hex_digit(#[trigger] s[i])
}

/// The value of a hexadecimal digit run, most significant digit first.
pub open spec fn hex_value(s: Seq<char>) -> int
    decreases s.len(),
{
    if s.len() == 0 {
        0
    } else {
        hex_value(s.drop_last()) * 16 + hex_digit_val(s.last())
    }
}

/// One IPv6 group: one to four hexadecimal digits.
pub open spec fn parse_h16_spec(p: Seq<char>) -> Option<u16> {
    if 1 <= p.len() <= 4 && all_hex_digits(p) {
        Some(hex_value(p) as u16)
    } else {
        None
    }
}

/// Sixteen to the given power.
spec fn pow16(n: nat) -> int
    decreases n,
{
    if n == 0 {
        1
    } else {
        16 * pow16((n - 1) as nat)
    }
}

proof fn lemma_hex_value_bound(s: Seq<char>)
    requires
        all_hex_digits(s),
    ensures
        0 <= hex_value(s) < pow16(s.len()),
        s.len() <= 4 ==> hex_value(s) <= 0xffff,
    decreases s.len(),
{
    assert(pow16(0) == 1);
    assert(pow16(1) == 16);
    assert(pow16(2) == 256);
    assert(pow16(3) == 4096);
    assert(pow16(4) == 65536);
    if s.len() > 0 {
        assert(all_hex_digits(s.drop_last())) by {
            assert(forall|i: int|
                0 <= i < s.len() - 1 ==> is_hex_digit(#[trigger] s.drop_last()[i]) == is_hex_digit(
                    s[i],
                ));
        }
        lemma_hex_value_bound(s.drop_last());
        assert(0 <= hex_digit_val(s.last()) <= 15);
    }
}

/// Parse one IPv6 group.
fn parse_h16(s: &str) -> (r: Option<u16>)
    ensures
        r == parse_h16_spec(s@),
{
    let len = s.unicode_len();
    if len < 1 || len > 4 {
        return None;
    }
    let mut acc: u32 = 0;
    let mut i: usize = 0;
    while i < len
        invariant
            0 <= i <= len,
            1 <= len <= 4,
            len == s@.len(),
            all_hex_digits(s@.take(i as int)),
            acc as int == hex_value(s@.take(i as int)),
            acc <= 0xffff,
        decreases len - i,
    {
        let c = s.get_char(i);
        let cv = c as u32;
        let d: u32 = if 48 <= cv && cv <= 57 {
            cv - 48
        } else if 97 <= cv && cv <= 102 {
            cv - 87
        } else if 65 <= cv && cv <= 70 {
            cv - 55
        } else {
            assert(!is_hex_digit(s@[i as int]));
            return None;
        };
        proof {
            assert(s@.take(i + 1).drop_last() =~= s@.take(i as int));
            assert(s@.take(i + 1).last() == s@[i as int]);
            lemma_hex_value_bound(s@.take(i as int));
        }
        acc = acc * 16 + d;
        i += 1;
        proof {
            assert(all_hex_digits(s@.take(i as int))) by {
                assert(forall|k: int|
                    0 <= k < i ==> s@.take(i as int)[k] == s@[k]);
            }
            lemma_hex_value_bound(s@.take(i as int));
        }
    }
    proof {
        assert(s@.take(len as int) =~= s@);
        lemma_hex_value_bound(s@);
    }
    Some(acc as u16)
}

} // verus!
verus! {

/// The first position of two adjacent colons at or after `k`, or the length
/// of the sequence when there are none.
pub open spec fn find2(s: Seq<char>, k: int) -> int
    decreases s.len() - k,
{
    if k < 0 || k + 1 >= s.len() {
        s.len() as int
    } else if s[k] == ':' && s[k + 1] == ':' {
        k
    } else {
        find2(s, k + 1)
    }
}

pub proof fn lemma_find2(s: Seq<char>, k: int)
    requires
        0 <= k <= s.len(),
    ensures
        k <= find2(s, k) <= s.len(),
        find2(s, k) + 1 < s.len() ==> (s[find2(s, k)] == ':' && s[find2(s, k) + 1] == ':'),
        find2(s, k) < s.len() ==> find2(s, k) + 1 < s.len(),
        forall|j: int|
            k <= j < find2(s, k) && j + 1 < s.len() ==> !((#[trigger] s[j]) == ':' && s[j + 1]
                == ':'),
    decreases s.len() - k,
{
    if !(k + 1 >= s.len()) && !(s[k] == ':' && s[k + 1] == ':') {
        lemma_find2(s, k + 1);
    }
}

pub open spec fn has_dot(p: Seq<char>) -> bool {
    exists|i: int| 0 <= i < p.len() && p[i] == '.'
}

/// A run of IPv6 groups, each one to four hexadecimal digits.
pub open spec fn parse_h16_groups(parts: Seq<Seq<char>>) -> Option<Seq<u16>>
    decreases parts.len(),
{
    if parts.len() == 0 {
        Some(Seq::empty())
    } else {
        match (parse_h16_groups(parts.drop_last()), parse_h16_spec(parts.last())) {
            (Some(gs), Some(v)) => Some(gs.push(v)),
            _ => None,
        }
    }
}

/// A run of IPv6 groups whose last part may instead be an embedded dotted
/// quad, standing for two groups.
pub open spec fn parse_group_run(parts: Seq<Seq<char>>) -> Option<Seq<u16>> {
    if parts.len() == 0 {
        Some(Seq::empty())
    } else if has_dot(parts.last()) {
        match (parse_h16_groups(parts.drop_last()), parse_ipv4_spec(parts.last())) {
            (Some(gs), Some(ip)) => match ip {
                IpAddr::V4(n) => Some(
                    gs.push((n as int / 0x1_0000) as u16).push((n as int % 0x1_0000) as u16),
                ),
                IpAddr::V6(_) => None,
            },
            _ => None,
        }
    } else {
        parse_h16_groups(parts)
    }
}

/// The value of the first `upto` 16-bit groups, most significant first.
pub open spec fn groups_value(gs: Seq<u16>, upto: int) -> int
    decreases upto,
{
    if upto <= 0 {
        0
    } else {
        groups_value(gs, upto - 1) * 0x1_0000 + gs[upto - 1]
    }
}

/// A sequence of zero groups.
pub open spec fn zero_groups(n: nat) -> Seq<u16> {
    Seq::new(n, |i: int| 0u16)
}

/// The IPv6 grammar: colon-separated groups, at most one `::` compression,
/// optionally a dotted quad as the last group.
pub open spec fn parse_ipv6_spec(s: Seq<char>) -> Option<IpAddr> {
    let i = find2(s, 0);
    if i == s.len() {
        match parse_group_run(crate::text::spec_split(s, ':')) {
            Some(gs) => if gs.len() == 8 {
                Some(IpAddr::V6(groups_value(gs, 8) as u128))
            } else {
                None
            },
            None => None,
        }
    } else {
        let left = s.take(i);
        let right = s.skip(i + 2);
        if find2(right, 0) != right.len() || (right.len() > 0 && right[0] == ':') {
            None
        } else {
            let lparts = if left.len() == 0 {
                Seq::<Seq<char>>::empty()
            } else {
                crate::text::spec_split(left, ':')
            };
            let rparts = if right.len() == 0 {
                Seq::<Seq<char>>::empty()
            } else {
                crate::text::spec_split(right, ':')
            };
            match (parse_h16_groups(lparts), parse_group_run(rparts)) {
                (Some(l), Some(r)) => if l.len() + r.len() <= 7 {
                    Some(
                        IpAddr::V6(
                            groups_value(
                                l + zero_groups((8 - l.len() - r.len()) as nat) + r,
                                8,
                            ) as u128,
                        ),
                    )
                } else {
                    None
                },
                _ => None,
            }
        }
    }
}

/// Two to the sixteenth, to the given power.
spec fn pow65536(n: nat) -> int
    decreases n,
{
    if n == 0 {
        1
    } else {
        0x1_0000 * pow65536((n - 1) as nat)
    }
}

proof fn lemma_groups_value_bound(gs: Seq<u16>, upto: int)
    requires
        0 <= upto <= gs.len(),
    ensures
        0 <= groups_value(gs, upto) < pow65536(upto as nat),
    decreases upto,
{
    if upto > 0 {
        lemma_groups_value_bound(gs, upto - 1);
    }
}

/// Once a prefix of the parts fails to parse, the whole run fails.
proof fn lemma_h16_groups_none_prefix(parts: Seq<Seq<char>>, i: int)
    requires
        0 <= i <= parts.len(),
        parse_h16_groups(parts.take(i)) is None,
    ensures
        parse_h16_groups(parts) is None,
    decreases parts.len() - i,
{
    if i < parts.len() {
        assert(parts.take(i + 1).drop_last() =~= parts.take(i));
        lemma_h16_groups_none_prefix(parts, i + 1);
    } else {
        assert(parts.take(i) =~= parts);
    }
}

/// Parse a forward run of plain groups.
fn parse_h16_groups_exec(parts: &Vec<String>, upto: usize) -> (r: Option<Vec<u16>>)
    requires
        upto <= parts@.len(),
    ensures
        match r {
            Some(gs) => parse_h16_groups(parts.deep_view().take(upto as int)) == Some(gs@),
            None => parse_h16_groups(parts.deep_view().take(upto as int)) is None,
        },
{
    let ghost pv = parts.deep_view();
    let mut gs: Vec<u16> = Vec::new();
    let mut i: usize = 0;
    proof {
        assert(pv.take(0) =~= Seq::<Seq<char>>::empty());
        assert(gs@ =~= Seq::<u16>::empty());
    }
    while i < upto
        invariant
            0 <= i <= upto <= pv.len(),
            pv == parts.deep_view(),
            parse_h16_groups(pv.take(i as int)) == Some(gs@),
        decreases upto - i,
    {
        proof {
            assert(parts@[i as int]@ == pv[i as int]);
            assert(pv.take(i + 1).drop_last() =~= pv.take(i as int));
            assert(pv.take(i + 1).last() == pv[i as int]);
        }
        match parse_h16(parts[i].as_str()) {
            Some(v) => {
                gs.push(v);
            },
            None => {
                proof {
                    assert(parse_h16_groups(pv.take(i + 1)) is None);
                    lemma_h16_groups_none_prefix(pv.take(upto as int), i + 1);
                    assert(pv.take(upto as int).take(i + 1) =~= pv.take(i + 1));
                }
                return None;
            },
        }
        i += 1;
    }
    Some(gs)
}

/// Does the text contain a dot anywhere?
fn contains_dot(s: &str) -> (r: bool)
    ensures
        r == has_dot(s@),
{
    let len = s.unicode_len();
    let mut i: usize = 0;
    while i < len
        invariant
            0 <= i <= len,
            len == s@.len(),
            forall|k: int| 0 <= k < i ==> s@[k] != '.',
        decreases len - i,
    {
        if s.get_char(i) == '.' {
            return true;
        }
        i += 1;
    }
    false
}

/// Parse a run of groups whose last part may be an embedded dotted quad.
fn parse_group_run_exec(parts: &Vec<String>) -> (r: Option<Vec<u16>>)
    ensures
        match r {
            Some(gs) => parse_group_run(parts.deep_view()) == Some(gs@),
            None => parse_group_run(parts.deep_view()) is None,
        },
{
    let ghost pv = parts.deep_view();
    let n = parts.len();
    if n == 0 {
        let gs: Vec<u16> = Vec::new();
        proof {
            assert(gs@ =~= Seq::<u16>::empty());
        }
        return Some(gs);
    }
    proof {
        assert(parts@[n - 1]@ == pv[n - 1]);
        assert(pv.last() == pv[n - 1]);
        assert(pv.take(n - 1) =~= pv.drop_last());
    }
    if contains_dot(parts[n - 1].as_str()) {
        let mut gs = match parse_h16_groups_exec(parts, n - 1) {
            Some(gs) => gs,
            None => {
                return None;
            },
        };
        match parse_ipv4(parts[n - 1].as_str()) {
            Some(ip) => match ip {
                IpAddr::V4(v) => {
                    gs.push((v / 0x1_0000) as u16);
                    gs.push((v % 0x1_0000) as u16);
                    Some(gs)
                },
                IpAddr::V6(_) => None,
            },
            None => None,
        }
    } else {
        proof {
            assert(pv.take(n as int) =~= pv);
        }
        parse_h16_groups_exec(parts, n)
    }
}

/// The position of the first `::`, or the text's length.
fn find_double_colon(s: &str) -> (r: usize)
    ensures
        r as int == find2(s@, 0),
{
    let len = s.unicode_len();
    let mut i: usize = 0;
    while i < len && i + 1 < len
        invariant
            0 <= i <= len,
            len == s@.len(),
            find2(s@, 0) == find2(s@, i as int),
        decreases len - i,
    {
        if s.get_char(i) == ':' && s.get_char(i + 1) == ':' {
            return i;
        }
        i += 1;
    }
    len
}

/// Combine eight groups into the 128-bit address value.
fn combine_groups(gs: &Vec<u16>) -> (r: u128)
    requires
        gs@.len() == 8,
    ensures
        r as int == groups_value(gs@, 8),
{
    let mut acc: u128 = 0;
    let mut i: usize = 0;
    while i < 8
        invariant
            0 <= i <= 8,
            gs@.len() == 8,
            acc as int == groups_value(gs@, i as int),
            (acc as int) < pow65536(i as nat),
        decreases 8 - i,
    {
        proof {
            lemma_groups_value_bound(gs@, i + 1);
            assert(pow65536(8) == 0x1_0000 * pow65536(7));
            assert(pow65536(7) == 0x1_0000 * pow65536(6));
            assert(pow65536(6) == 0x1_0000 * pow65536(5));
            assert(pow65536(5) == 0x1_0000 * pow65536(4));
            assert(pow65536(4) == 0x1_0000 * pow65536(3));
            assert(pow65536(3) == 0x1_0000 * pow65536(2));
            assert(pow65536(2) == 0x1_0000 * pow65536(1));
            assert(pow65536(1) == 0x1_0000 * pow65536(0));
            assert(pow65536(0) == 1);
        }
        acc = acc * 0x1_0000 + (gs[i] as u128);
        i += 1;
    }
    acc
}

/// Parse an IPv6 address.
pub fn parse_ipv6(s: &str) -> (r: Option<IpAddr>)
    ensures
        r == parse_ipv6_spec(s@),
{
    let len = s.unicode_len();
    let i = find_double_colon(s);
    proof {
        lemma_find2(s@, 0);
    }
    if i == len {
        let parts = crate::text::split_str(s, ':');
        let gs = match parse_group_run_exec(&parts) {
            Some(gs) => gs,
            None => {
                return None;
            },
        };
        if gs.len() != 8 {
            return None;
        }
        Some(IpAddr::V6(combine_groups(&gs)))
    } else {
        let left = s.substring_char(0, i);
        let right = s.substring_char(i + 2, len);
        proof {
            assert(left@ =~= s@.take(i as int));
            assert(right@ =~= s@.skip(i as int + 2));
        }
        let rlen = right.unicode_len();
        let j = find_double_colon(right);
        if j != rlen {
            return None;
        }
        if rlen > 0 && right.get_char(0) == ':' {
            return None;
        }
        let lgroups = if left.unicode_len() == 0 {
            let v: Vec<u16> = Vec::new();
            proof {
                assert(v@ =~= Seq::<u16>::empty());
                assert(parse_h16_groups(Seq::<Seq<char>>::empty()) == Some(v@));
            }
            v
        } else {
            let lparts = crate::text::split_str(left, ':');
            proof {
                assert(lparts.deep_view().take(lparts@.len() as int) =~= lparts.deep_view());
            }
            match parse_h16_groups_exec(&lparts, lparts.len()) {
                Some(gs) => gs,
                None => {
                    return None;
                },
            }
        };
        let rgroups = if rlen == 0 {
            let v: Vec<u16> = Vec::new();
            proof {
                assert(v@ =~= Seq::<u16>::empty());
                assert(parse_group_run(Seq::<Seq<char>>::empty()) == Some(v@));
            }
            v
        } else {
            let rparts = crate::text::split_str(right, ':');
            match parse_group_run_exec(&rparts) {
                Some(gs) => gs,
                None => {
                    return None;
                },
            }
        };
        if lgroups.len() > 7 || rgroups.len() > 7 || lgroups.len() + rgroups.len() > 7 {
            return None;
        }
        let mut gs: Vec<u16> = Vec::new();
        let mut k: usize = 0;
        while k < lgroups.len()
            invariant
                0 <= k <= lgroups@.len(),
                gs@ == lgroups@.take(k as int),
            decreases lgroups@.len() - k,
        {
            gs.push(lgroups[k]);
            k += 1;
            proof {
                assert(gs@ =~= lgroups@.take(k as int));
            }
        }
        let fill = 8 - lgroups.len() - rgroups.len();
        let mut z: usize = 0;
        while z < fill
            invariant
                0 <= z <= fill,
                fill == 8 - lgroups@.len() - rgroups@.len(),
                lgroups@.len() + rgroups@.len() <= 7,
                gs@ == lgroups@ + zero_groups(z as nat),
            decreases fill - z,
        {
            gs.push(0);
            z += 1;
            proof {
                assert(gs@ =~= lgroups@ + zero_groups(z as nat));
            }
        }
        let mut k: usize = 0;
        while k < rgroups.len()
            invariant
                0 <= k <= rgroups@.len(),
                fill == 8 - lgroups@.len() - rgroups@.len(),
                lgroups@.len() + rgroups@.len() <= 7,
                gs@ == lgroups@ + zero_groups(fill as nat) + rgroups@.take(k as int),
            decreases rgroups@.len() - k,
        {
            gs.push(rgroups[k]);
            k += 1;
            proof {
                assert(gs@ =~= lgroups@ + zero_groups(fill as nat) + rgroups@.take(k as int));
            }
        }
        proof {
            assert(gs@ =~= lgroups@ + zero_groups(fill as nat) + rgroups@);
            assert(lgroups@.take(0) =~= Seq::<u16>::empty());
            assert(gs@.len() == 8);
        }
        Some(IpAddr::V6(combine_groups(&gs)))
    }
}

/// Parse an IP address of either family: the dotted-quad form first, the
/// IPv6 form otherwise.
pub open spec fn parse_ip_spec(s: Seq<char>) -> Option<IpAddr> {
    if parse_ipv4_spec(s) is Some {
        parse_ipv4_spec(s)
    } else {
        parse_ipv6_spec(s)
    }
}

pub fn parse_ip(s: &str) -> (r: Option<IpAddr>)
    ensures
        r == parse_ip_spec(s@),
{
    match parse_ipv4(s) {
        Some(ip) => Some(ip),
        None => parse_ipv6(s),
    }
}

/// A port: a decimal run valued up to 65535.
pub open spec fn parse_port_spec(p: Seq<char>) -> Option<u16> {
    match crate::text::parse_dec_spec(p) {
        Some(v) => if v <= 65535 {
            Some(v as u16)
        } else {
            None
        },
        None => None,
    }
}

pub fn parse_port(s: &str) -> (r: Option<u16>)
    ensures
        r == parse_port_spec(s@),
{
    match crate::text::parse_u32(s) {
        Some(v) => if v <= 65535 {
            Some(v as u16)
        } else {
            None
        },
        None => None,
    }
}

/// The last position of the separator, if any, among the first `upto`.
pub open spec fn rfind_upto(s: Seq<char>, upto: int, c: char) -> Option<int>
    decreases upto,
{
    if upto <= 0 {
        None
    } else if s[upto - 1] == c {
        Some(upto - 1)
    } else {
        rfind_upto(s, upto - 1, c)
    }
}

/// A found separator lies in range and is the separator.
pub proof fn lemma_rfind_upto(s: Seq<char>, upto: int, c: char)
    requires
        upto <= s.len(),
    ensures
        match rfind_upto(s, upto, c) {
            Some(k) => 0 <= k < upto && s[k] == c,
            None => true,
        },
    decreases upto,
{
    if upto > 0 && s[upto - 1] != c {
        lemma_rfind_upto(s, upto - 1, c);
    }
}

/// The socket-address grammar: `[v6]:port` when bracketed, `v4:port` split
/// at the last colon otherwise.
pub open spec fn parse_sock_addr_spec(s: Seq<char>) -> Option<SocketAddr> {
    if s.len() > 0 && s[0] == '[' {
        let j = crate::text::find_from(s, ']', 0);
        if j < s.len() && j + 1 < s.len() && s[j + 1] == ':' {
            match (parse_ipv6_spec(s.subrange(1, j)), parse_port_spec(s.skip(j + 2))) {
                (Some(ip), Some(port)) => Some(SocketAddr { ip, port }),
                _ => None,
            }
        } else {
            None
        }
    } else {
        match rfind_upto(s, s.len() as int, ':') {
            Some(k) => match (parse_ipv4_spec(s.take(k)), parse_port_spec(s.skip(k + 1))) {
                (Some(ip), Some(port)) => Some(SocketAddr { ip, port }),
                _ => None,
            },
            None => None,
        }
    }
}

/// Parse a socket address: a bracketed IPv6 address or a dotted quad,
/// followed by a colon and a port.
pub fn parse_sock_addr(s: &str) -> (r: Option<SocketAddr>)
    ensures
        r == parse_sock_addr_spec(s@),
{
    let len = s.unicode_len();
    if len > 0 && s.get_char(0) == '[' {
        let mut j: usize = 0;
        while j < len && s.get_char(j) != ']'
            invariant
                0 <= j <= len,
                len == s@.len(),
                forall|k: int| 0 <= k < j ==> s@[k] != ']',
            decreases len - j,
        {
            j += 1;
        }
        proof {
            crate::text::lemma_find_from(s@, ']', 0);
            if j < len {
                assert(crate::text::find_from(s@, ']', 0) == j);
            } else {
                assert(crate::text::find_from(s@, ']', 0) == s@.len());
            }
        }
        if j >= len || j + 1 >= len || s.get_char(j + 1) != ':' {
            return None;
        }
        let inner = s.substring_char(1, j);
        let port_str = s.substring_char(j + 2, len);
        proof {
            assert(inner@ =~= s@.subrange(1, j as int));
            assert(port_str@ =~= s@.skip(j as int + 2));
        }
        let ip = match parse_ipv6(inner) {
            Some(ip) => ip,
            None => {
                return None;
            },
        };
        match parse_port(port_str) {
            Some(port) => Some(SocketAddr::new(ip, port)),
            None => None,
        }
    } else {
        let mut found: Option<usize> = None;
        let mut k: usize = 0;
        while k < len
            invariant
                0 <= k <= len,
                len == s@.len(),
                match found {
                    Some(f) => rfind_upto(s@, k as int, ':') == Some(f as int),
                    None => rfind_upto(s@, k as int, ':') is None,
                },
            decreases len - k,
        {
            if s.get_char(k) == ':' {
                found = Some(k);
            }
            k += 1;
        }
        let k = match found {
            Some(k) => k,
            None => {
                return None;
            },
        };
        proof {
            lemma_rfind_upto(s@, s@.len() as int, ':');
        }
        let ip_str = s.substring_char(0, k);
        let port_str = s.substring_char(k + 1, len);
        proof {
            assert(ip_str@ =~= s@.take(k as int));
            assert(port_str@ =~= s@.skip(k as int + 1));
        }
        let ip = match parse_ipv4(ip_str) {
            Some(ip) => ip,
            None => {
                return None;
            },
        };
        match parse_port(port_str) {
            Some(port) => Some(SocketAddr::new(ip, port)),
            None => None,
        }
    }
}

} // verus!
