//! Addresses and networks of both families.

use vstd::prelude::*;

use crate::text;
use crate::text::{chars_of, decimal, parse_plain, position, split_once, text_between};

verus! {

/// An address.
#[derive(Debug, Clone, Copy, PartialEq, Eq, Structural)]
pub enum IpAddr {
    /// An IPv4 address: its four octets, the first the most significant.
    V4(u32),
    /// An IPv6 address: its sixteen octets, the first the most significant.
    V6(u128),
}

/// The order of addresses: IPv4 before IPv6, then by value.
pub open spec fn ip_less(a: IpAddr, b: IpAddr) -> bool {
    match (a, b) {
        (IpAddr::V4(x), IpAddr::V4(y)) => x < y,
        (IpAddr::V4(_), IpAddr::V6(_)) => true,
        (IpAddr::V6(_), IpAddr::V4(_)) => false,
        (IpAddr::V6(x), IpAddr::V6(y)) => x < y,
    }
}

impl IpAddr {
    /// Whether this is an IPv4 address.
    pub fn is_ipv4(&self) -> (r: bool)
        ensures
            r == (*self is V4),
    {
        match self {
            IpAddr::V4(_) => true,
            IpAddr::V6(_) => false,
        }
    }

    /// Whether this address comes before `other`.
    pub fn less(self, other: IpAddr) -> (r: bool)
        ensures
            r == ip_less(self, other),
    {
        match (self, other) {
            (IpAddr::V4(x), IpAddr::V4(y)) => x < y,
            (IpAddr::V4(_), IpAddr::V6(_)) => true,
            (IpAddr::V6(_), IpAddr::V4(_)) => false,
            (IpAddr::V6(x), IpAddr::V6(y)) => x < y,
        }
    }
}

// ---------------------------------------------------------------------------
// Networks

/// A network in CIDR notation: an address and the number of leading bits that
/// are the network's. The address keeps its host bits.
#[derive(Debug, Clone, Copy, PartialEq, Eq, Structural)]
#[allow(inconsistent_fields)]
pub enum Network {
    /// An IPv4 network.
    V4 {
        /// The address.
        addr: u32,
        /// The prefix length, up to 32.
        prefix: u8,
    },
    /// An IPv6 network.
    V6 {
        /// The address.
        addr: u128,
        /// The prefix length, up to 128.
        prefix: u8,
    },
}

/// The network that a text stands for, if it stands for one.
pub uninterp spec fn network_named(s: Seq<char>) -> Option<Network>;

/// Parses with `IpNetwork::from_str` of the `ipnetwork` crate. It reads an
/// address, then `/` and a prefix length or an IPv4 netmask. Without `/` the
/// prefix covers the whole address, so such a text is read exactly as an
/// address is. Its only error repeats the text.
#[verifier::external_body]
fn network_from_str(s: &str) -> (r: Result<Network, String>)
    ensures
        match r {
            Ok(n) => {
                &&& network_named(s@) == Some(n)
                &&& match n {
                    Network::V4 { prefix, .. } => prefix <= 32 && (!s@.contains('/') ==> prefix
                        == 32),
                    Network::V6 { prefix, .. } => prefix <= 128 && (!s@.contains('/') ==> prefix
                        == 128),
                }
            },
            Err(e) => network_named(s@) is None && e@ == "invalid address: "@ + s@,
        },
{
    match s.parse::<ipnetwork::IpNetwork>() {
        Ok(ipnetwork::IpNetwork::V4(n)) => Ok(
            Network::V4 { addr: n.ip().into(), prefix: n.prefix() },
        ),
        Ok(ipnetwork::IpNetwork::V6(n)) => Ok(
            Network::V6 { addr: n.ip().into(), prefix: n.prefix() },
        ),
        Err(e) => Err(e.to_string()),
    }
}

/// The canonical text of an IPv6 address.
pub uninterp spec fn ipv6_text(addr: u128) -> Seq<char>;

/// Formats with `Display` of the standard library's IPv6 address, which
/// `Ipv6Network::ip` of the `ipnetwork` crate hands out. How zero groups are
/// shortened takes long to state, so the result is only named.
#[verifier::external_body]
fn ipv6_to_string(addr: u128) -> (r: String)
    ensures
        r@ == ipv6_text(addr),
{
    match ipnetwork::Ipv6Network::new(addr.into(), 128) {
        Ok(n) => n.ip().to_string(),
        Err(e) => e.to_string(),
    }
}

/// The dotted text of an IPv4 address.
pub open spec fn ipv4_text(addr: u32) -> Seq<char> {
    text::decimal_text((addr / 0x100_0000) as nat) + "."@ + text::decimal_text(
        ((addr / 0x1_0000) % 0x100) as nat,
    ) + "."@ + text::decimal_text(((addr / 0x100) % 0x100) as nat) + "."@ + text::decimal_text(
        (addr % 0x100) as nat,
    )
}

/// The text of an address.
pub open spec fn ip_text(ip: IpAddr) -> Seq<char> {
    match ip {
        IpAddr::V4(addr) => ipv4_text(addr),
        IpAddr::V6(addr) => ipv6_text(addr),
    }
}

/// The text of a network.
pub open spec fn network_text(n: Network) -> Seq<char> {
    match n {
        Network::V4 { addr, prefix } => ipv4_text(addr) + "/"@ + text::decimal_text(prefix as nat),
        Network::V6 { addr, prefix } => ipv6_text(addr) + "/"@ + text::decimal_text(prefix as nat),
    }
}

/// The address part of a network.
pub open spec fn network_address(n: Network) -> IpAddr {
    match n {
        Network::V4 { addr, .. } => IpAddr::V4(addr),
        Network::V6 { addr, .. } => IpAddr::V6(addr),
    }
}

/// The address that a text stands for: a network without a prefix.
pub open spec fn ip_named(s: Seq<char>) -> Option<IpAddr> {
    if s.contains('/') {
        None
    } else {
        match network_named(s) {
            Some(n) => Some(network_address(n)),
            None => None,
        }
    }
}

fn ipv4_to_string(addr: u32) -> (r: String)
    ensures
        r@ == ipv4_text(addr),
{
    let mut r = decimal((addr / 0x100_0000) as u64);
    r.append(".");
    r.append(decimal(((addr / 0x1_0000) % 0x100) as u64).as_str());
    r.append(".");
    r.append(decimal(((addr / 0x100) % 0x100) as u64).as_str());
    r.append(".");
    r.append(decimal((addr % 0x100) as u64).as_str());
    r
}

/// `address` followed by a prefix length.
fn with_prefix(address: String, prefix: u8) -> (r: String)
    ensures
        r@ == address@ + "/"@ + text::decimal_text(prefix as nat),
{
    let mut r = address;
    r.append("/");
    r.append(decimal(prefix as u64).as_str());
    r
}

impl Network {
    /// Parses a network in CIDR notation; a bare address is a network of its
    /// own. The error says what could not be read.
    pub fn parse(s: &str) -> (r: Result<Network, String>)
        ensures
            match r {
                Ok(n) => network_named(s@) == Some(n),
                Err(e) => network_named(s@) is None && e@ == "invalid address: "@ + s@,
            },
    {
        network_from_str(s)
    }

    /// The address part.
    pub fn address(&self) -> (r: IpAddr)
        ensures
            r == network_address(*self),
    {
        match self {
            Network::V4 { addr, .. } => IpAddr::V4(*addr),
            Network::V6 { addr, .. } => IpAddr::V6(*addr),
        }
    }

    /// Whether this is an IPv4 network.
    pub fn is_ipv4(&self) -> (r: bool)
        ensures
            r == (*self is V4),
    {
        match self {
            Network::V4 { .. } => true,
            Network::V6 { .. } => false,
        }
    }

    /// The text of the network: address, `/`, prefix length.
    pub fn to_text(&self) -> (r: String)
        ensures
            r@ == network_text(*self),
    {
        match self {
            Network::V4 { addr, prefix } => with_prefix(ipv4_to_string(*addr), *prefix),
            Network::V6 { addr, prefix } => with_prefix(ipv6_to_string(*addr), *prefix),
        }
    }
}

impl IpAddr {
    /// Parses an address of either family.
    pub fn parse(s: &str) -> (r: Option<IpAddr>)
        ensures
            r == ip_named(s@),
    {
        let v = chars_of(s);
        let slash = position(&v, '/');
        if slash < v.len() {
            assert(s@[slash as int] == '/');
            return None;
        }
        proof {
            crate::text::lemma_position_absent(s@, '/');
        }
        match network_from_str(s) {
            Ok(n) => Some(n.address()),
            Err(_) => None,
        }
    }

    /// The text of the address.
    pub fn to_text(&self) -> (r: String)
        ensures
            r@ == ip_text(*self),
    {
        match self {
            IpAddr::V4(addr) => ipv4_to_string(*addr),
            IpAddr::V6(addr) => ipv6_to_string(*addr),
        }
    }
}

// ---------------------------------------------------------------------------
// Addresses with ports

/// An address and a port.
#[derive(Debug, Clone, Copy, PartialEq, Eq, Structural)]
#[allow(inconsistent_fields)]
pub enum SocketAddr {
    /// Of IPv4.
    V4 {
        /// The address.
        addr: u32,
        /// The port.
        port: u16,
    },
    /// Of IPv6.
    V6 {
        /// The address.
        addr: u128,
        /// The port.
        port: u16,
        /// The scope, zero where none is given.
        scope: u32,
    },
}

/// The IPv6 address and the scope that stand between brackets.
pub open spec fn scoped_named(s: Seq<char>) -> Option<(u128, u32)> {
    let parts = match text::cut_at(s, '%') {
        Some((addr, scope)) => (addr, text::plain_number(scope, u32::MAX as nat)),
        None => (s, Some(0nat)),
    };
    match (ip_named(parts.0), parts.1) {
        (Some(IpAddr::V6(addr)), Some(scope)) => Some((addr, scope as u32)),
        _ => None,
    }
}

/// The address and the port that a text stands for: `1.2.3.4:80`, `[::1]:80` or,
/// with a scope, `[fe80::1%2]:80`.
pub open spec fn socket_named(s: Seq<char>) -> Option<SocketAddr> {
    if s.len() > 0 && s[0] == '[' {
        match text::cut_at(s.skip(1), ']') {
            Some((host, rest)) => if rest.len() > 0 && rest[0] == ':' {
                match (scoped_named(host), text::plain_number(rest.skip(1), u16::MAX as nat)) {
                    (Some((addr, scope)), Some(port)) => Some(
                        SocketAddr::V6 { addr, port: port as u16, scope },
                    ),
                    _ => None,
                }
            } else {
                None
            },
            None => None,
        }
    } else {
        match text::cut_at(s, ':') {
            Some((host, rest)) => match (
                ip_named(host),
                text::plain_number(rest, u16::MAX as nat),
            ) {
                (Some(IpAddr::V4(addr)), Some(port)) => Some(
                    SocketAddr::V4 { addr, port: port as u16 },
                ),
                _ => None,
            },
            None => None,
        }
    }
}

/// A text without its first character.
fn after_first(s: &str) -> (r: String)
    requires
        s@.len() > 0,
    ensures
        r@ == s@.skip(1),
{
    let v = chars_of(s);
    let r = text_between(&v, 1, v.len());
    assert(r@ =~= s@.skip(1));
    r
}

/// Whether a text starts with a character.
fn starts_with_char(s: &str, c: char) -> (r: bool)
    ensures
        r == (s@.len() > 0 && s@[0] == c),
{
    let v = chars_of(s);
    v.len() > 0 && v[0] == c
}

/// Parses what stands between brackets.
fn parse_scoped(s: &str) -> (r: Option<(u128, u32)>)
    ensures
        r == scoped_named(s@),
{
    let (host, scope) = match split_once(s, '%') {
        Some((host, scope)) => (host, parse_plain(scope.as_str(), u32::MAX as u64)),
        None => (s.to_owned(), Some(0u64)),
    };
    match (IpAddr::parse(host.as_str()), scope) {
        (Some(IpAddr::V6(addr)), Some(scope)) => Some((addr, scope as u32)),
        _ => None,
    }
}

impl SocketAddr {
    /// Parses an address and a port.
    pub fn parse(s: &str) -> (r: Option<SocketAddr>)
        ensures
            r == socket_named(s@),
    {
        if starts_with_char(s, '[') {
            let (host, rest) = match split_once(after_first(s).as_str(), ']') {
                Some(parts) => parts,
                None => {
                    return None;
                },
            };
            if !starts_with_char(rest.as_str(), ':') {
                return None;
            }
            let port = parse_plain(after_first(rest.as_str()).as_str(), u16::MAX as u64);
            match (parse_scoped(host.as_str()), port) {
                (Some((addr, scope)), Some(port)) => Some(
                    SocketAddr::V6 { addr, port: port as u16, scope },
                ),
                _ => None,
            }
        } else {
            let (host, rest) = match split_once(s, ':') {
                Some(parts) => parts,
                None => {
                    return None;
                },
            };
            match (IpAddr::parse(host.as_str()), parse_plain(rest.as_str(), u16::MAX as u64)) {
                (Some(IpAddr::V4(addr)), Some(port)) => Some(
                    SocketAddr::V4 { addr, port: port as u16 },
                ),
                _ => None,
            }
        }
    }
}

// ---------------------------------------------------------------------------
// What holds of the texts

/// The text of an IPv4 address is made of digits and dots.
pub proof fn ipv4_text_is_plain(addr: u32)
    ensures
        forall|i: int|
            0 <= i < ipv4_text(addr).len() ==> '0' <= #[trigger] ipv4_text(addr)[i] <= '9'
                || ipv4_text(addr)[i] == '.',
{
    reveal_strlit(".");
    text::number_text_digits((addr / 0x100_0000) as nat);
    text::number_text_digits(((addr / 0x1_0000) % 0x100) as nat);
    text::number_text_digits(((addr / 0x100) % 0x100) as nat);
    text::number_text_digits((addr % 0x100) as nat);
}

/// The text of an IPv4 address as four parts.
spec fn octets(addr: u32) -> Seq<Seq<char>> {
    seq![
        text::decimal_text((addr / 0x100_0000) as nat),
        text::decimal_text(((addr / 0x1_0000) % 0x100) as nat),
        text::decimal_text(((addr / 0x100) % 0x100) as nat),
        text::decimal_text((addr % 0x100) as nat),
    ]
}

proof fn lemma_octets(addr: u32)
    ensures
        text::joined(octets(addr), "."@) == ipv4_text(addr),
        forall|i: int| 0 <= i < 4 ==> !(#[trigger] octets(addr)[i]).contains('.'),
{
    let o = octets(addr);
    reveal_with_fuel(text::joined, 4);
    assert(o.drop_last() =~= seq![o[0], o[1], o[2]]);
    assert(o.drop_last().drop_last() =~= seq![o[0], o[1]]);
    assert(o.drop_last().drop_last().drop_last() =~= seq![o[0]]);
    text::number_text_digits((addr / 0x100_0000) as nat);
    text::number_text_digits(((addr / 0x1_0000) % 0x100) as nat);
    text::number_text_digits(((addr / 0x100) % 0x100) as nat);
    text::number_text_digits((addr % 0x100) as nat);
    assert forall|i: int| 0 <= i < 4 implies !(#[trigger] o[i]).contains('.') by {
        if o[i].contains('.') {
            let k = choose|k: int| 0 <= k < o[i].len() && o[i][k] == '.';
            assert('0' <= o[i][k] <= '9');
        }
    }
}

/// Four octets make one address.
proof fn lemma_octets_once(a: u32, b: u32)
    requires
        a / 0x100_0000 == b / 0x100_0000,
        (a / 0x1_0000) % 0x100 == (b / 0x1_0000) % 0x100,
        (a / 0x100) % 0x100 == (b / 0x100) % 0x100,
        a % 0x100 == b % 0x100,
    ensures
        a == b,
{
    assert(a == b) by (bit_vector)
        requires
            a / 0x100_0000 == b / 0x100_0000,
            (a / 0x1_0000) % 0x100 == (b / 0x1_0000) % 0x100,
            (a / 0x100) % 0x100 == (b / 0x100) % 0x100,
            a % 0x100 == b % 0x100,
    ;
}

/// No two IPv4 addresses have the same text.
pub proof fn ipv4_text_once(a: u32, b: u32)
    requires
        ipv4_text(a) == ipv4_text(b),
    ensures
        a == b,
{
    reveal_strlit(".");
    lemma_octets(a);
    lemma_octets(b);
    let x = octets(a);
    let y = octets(b);
    text::joined_once(x, y, "."@);
    assert(x[0] == y[0] && x[1] == y[1] && x[2] == y[2] && x[3] == y[3]);
    text::decimal_once((a / 0x100_0000) as nat, (b / 0x100_0000) as nat);
    text::decimal_once(((a / 0x1_0000) % 0x100) as nat, ((b / 0x1_0000) % 0x100) as nat);
    text::decimal_once(((a / 0x100) % 0x100) as nat, ((b / 0x100) % 0x100) as nat);
    text::decimal_once((a % 0x100) as nat, (b % 0x100) as nat);
    lemma_octets_once(a, b);
}

// ---------------------------------------------------------------------------
// What can be relied on

/// An IPv4 address is written octet by octet, the most significant one first,
/// with dots between.
pub proof fn octet_by_octet(a: u8, b: u8, c: u8, d: u8, addr: u32)
    requires
        addr == a * 0x100_0000 + b * 0x1_0000 + c * 0x100 + d,
    ensures
        ip_text(IpAddr::V4(addr)) == text::decimal_text(a as nat) + "."@ + text::decimal_text(
            b as nat,
        ) + "."@ + text::decimal_text(c as nat) + "."@ + text::decimal_text(d as nat),
{
    assert(addr / 0x100_0000 == a);
    assert(addr / 0x1_0000 == a * 0x100 + b);
    assert((addr / 0x1_0000) % 0x100 == b);
    assert(addr / 0x100 == a * 0x1_0000 + b * 0x100 + c);
    assert((addr / 0x100) % 0x100 == c);
    assert(addr % 0x100 == d);
}

/// A network is written as its address and its prefix length, with a slash
/// between.
pub proof fn networks_as_text(n: Network)
    ensures
        n is V4 ==> network_text(n) == ip_text(IpAddr::V4(n->V4_addr)) + "/"@ + text::decimal_text(
            n->V4_prefix as nat,
        ),
        n is V6 ==> network_text(n) == ip_text(IpAddr::V6(n->V6_addr)) + "/"@ + text::decimal_text(
            n->V6_prefix as nat,
        ),
{
}

/// An address is what would be read as a network without a prefix length, and
/// nothing that has one.
pub proof fn addresses_have_no_prefix(s: Seq<char>)
    ensures
        s.contains('/') ==> ip_named(s) is None,
        !s.contains('/') ==> (ip_named(s) is Some <==> network_named(s) is Some),
        !s.contains('/') && network_named(s) is Some && network_named(s)->0 is V4 ==> ip_named(s)
            == Some(IpAddr::V4((network_named(s)->0)->V4_addr)),
        !s.contains('/') && network_named(s) is Some && network_named(s)->0 is V6 ==> ip_named(s)
            == Some(IpAddr::V6((network_named(s)->0)->V6_addr)),
{
}

/// IPv4 addresses come before IPv6 addresses, and each family is in the order of
/// its values.
pub proof fn order_of_addresses(x: u32, y: u32, v: u128, w: u128)
    ensures
        ip_less(IpAddr::V4(x), IpAddr::V4(y)) <==> x < y,
        ip_less(IpAddr::V6(v), IpAddr::V6(w)) <==> v < w,
        ip_less(IpAddr::V4(x), IpAddr::V6(v)),
        !ip_less(IpAddr::V6(v), IpAddr::V4(x)),
{
}

/// An IPv4 address with a colon and a port is read as both; an address of the
/// other family, no address, or no port is not.
pub proof fn ipv4_with_port(host: Seq<char>, port: Seq<char>, n: u16)
    requires
        host.len() > 0,
        host[0] != '[',
        !host.contains(':'),
    ensures
        ip_named(host) is Some && ip_named(host)->0 is V4 ==> socket_named(
            host.push(':') + text::decimal_text(n as nat),
        ) == Some(SocketAddr::V4 { addr: (ip_named(host)->0)->V4_0, port: n }),
        ip_named(host) is None || ip_named(host)->0 is V6 ==> socket_named(
            host.push(':') + port,
        ) is None,
        text::plain_number(port, 65535) is None ==> socket_named(host.push(':') + port) is None,
        socket_named(host) is None,
{
    text::cutting(host, text::decimal_text(n as nat), ':');
    text::cutting(host, port, ':');
    text::plain_numbers(n as nat, 65535, port);
    assert((host.push(':') + port)[0] == host[0]);
    assert((host.push(':') + text::decimal_text(n as nat))[0] == host[0]);
}

proof fn lemma_in_brackets(host: Seq<char>, rest: Seq<char>)
    requires
        !host.contains(']'),
    ensures
        ({
            let s = seq!['['] + (host.push(']') + rest);
            &&& rest.len() == 0 || rest[0] != ':' ==> socket_named(s) is None
            &&& rest.len() > 0 && rest[0] == ':' && scoped_named(host) is Some
                && text::plain_number(rest.skip(1), 65535) is Some ==> socket_named(s) == Some(
                SocketAddr::V6 {
                    addr: (scoped_named(host)->0).0,
                    port: text::plain_number(rest.skip(1), 65535)->0 as u16,
                    scope: (scoped_named(host)->0).1,
                },
            )
            &&& scoped_named(host) is None ==> socket_named(s) is None
            &&& socket_named(seq!['['] + host) is None
        }),
{
    let s = seq!['['] + (host.push(']') + rest);
    text::cutting(host, rest, ']');
    assert(s[0] == '[');
    assert(s.skip(1) =~= host.push(']') + rest);
    let u = seq!['['] + host;
    assert(u[0] == '[');
    assert(u.skip(1) =~= host);
}

/// An IPv6 address in brackets with a colon and a port is read as both, without
/// a scope. With an address of the other family, without one, without the end of
/// the brackets or without the colon it is not read.
pub proof fn ipv6_with_port(host: Seq<char>, n: u16, rest: Seq<char>)
    requires
        !host.contains(']'),
        !host.contains('%'),
    ensures
        ({
            let tail = seq![':'] + text::decimal_text(n as nat);
            let ok = ip_named(host) is Some && ip_named(host)->0 is V6;
            &&& ok ==> socket_named(seq!['['] + (host.push(']') + tail)) == Some(
                SocketAddr::V6 { addr: (ip_named(host)->0)->V6_0, port: n, scope: 0 },
            )
            &&& !ok ==> socket_named(seq!['['] + (host.push(']') + rest)) is None
            &&& rest.len() == 0 || rest[0] != ':' ==> socket_named(
                seq!['['] + (host.push(']') + rest),
            ) is None
            &&& socket_named(seq!['['] + host) is None
        }),
{
    let port = text::decimal_text(n as nat);
    let tail = seq![':'] + port;
    text::cutting(host, rest, '%');
    assert(tail.skip(1) =~= port);
    text::plain_numbers(n as nat, 65535, rest);
    lemma_in_brackets(host, tail);
    lemma_in_brackets(host, rest);
}

/// A scope follows the address after a percent sign.
pub proof fn ipv6_with_scope(host: Seq<char>, scope: u32, n: u16)
    requires
        !host.contains(']'),
        !host.contains('%'),
        ip_named(host) is Some,
        ip_named(host)->0 is V6,
    ensures
        ({
            let zone = host.push('%') + text::decimal_text(scope as nat);
            let tail = seq![':'] + text::decimal_text(n as nat);
            socket_named(seq!['['] + (zone.push(']') + tail)) == Some(
                SocketAddr::V6 { addr: (ip_named(host)->0)->V6_0, port: n, scope },
            )
        }),
{
    let port = text::decimal_text(n as nat);
    let tail = seq![':'] + port;
    let digits = text::decimal_text(scope as nat);
    let zone = host.push('%') + digits;
    text::number_text_digits(scope as nat);
    assert(!zone.contains(']')) by {
        if zone.contains(']') {
            let k = choose|k: int| 0 <= k < zone.len() && zone[k] == ']';
            if k < host.len() {
                assert(host[k] == ']');
                assert(host.contains(']'));
            } else if k > host.len() {
                let j = k - host.len() - 1;
                assert(zone[k] == digits[j]);
                assert('0' <= digits[j] <= '9');
            }
        }
    }
    text::cutting(host, digits, '%');
    text::plain_numbers(scope as nat, u32::MAX as nat, digits);
    text::plain_numbers(n as nat, 65535, digits);
    assert(tail.skip(1) =~= port);
    assert(scoped_named(zone) == Some(((ip_named(host)->0)->V6_0, scope)));
    lemma_in_brackets(zone, tail);
}

} // verus!
