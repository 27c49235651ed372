//! The `v1alpha1` gateway model, the label convention, and what makes a
//! configuration valid.
//!
//! A gateway is an egress target plus routing knobs: marked traffic is routed
//! there, the tunnel itself is provided elsewhere. Containers opt in with
//! `<prefix>.enable` and `<prefix>.via` labels.

use vstd::prelude::*;

use crate::net;
use crate::net::{IpAddr, Network};
use crate::ordered;
use crate::ordered::TextMap;
use crate::seqs;
use crate::text;
use crate::text::{
    chars_of, copy_texts, parse_hex_u32, parse_u32, same, split_on, split_once, text_between,
    trim,
};

pub mod error;
pub mod guarantees;
pub mod laws;

pub use error::{ConfigError, ConfigFault};

verus! {

/// This module's API version.
pub const VERSION: &'static str = "v1alpha1";

/// The labels of a container.
pub type Labels = TextMap<String>;

/// A label selector: a container matches when it carries every listed label
/// with the given value. An empty selector matches nothing, never every
/// container.
pub type Selector = TextMap<String>;

/// Where a gateway sends marked traffic. Exactly one kind must be set, which
/// [`Gateway::validate`] checks.
#[derive(Debug, PartialEq, Eq)]
pub struct Egress {
    /// A host interface.
    pub interface: Option<String>,
    /// A gateway container, by name or Compose service. Its current address is
    /// looked up whenever a plan is made; while it does not run, nothing is
    /// routed.
    pub container: Option<String>,
    /// A static next-hop address, for a gateway that keeps its address.
    pub next_hop: Option<String>,
}

/// The model of an [`Egress`].
pub struct EgressModel {
    /// See [`Egress::interface`].
    pub interface: Option<Seq<char>>,
    /// See [`Egress::container`].
    pub container: Option<Seq<char>>,
    /// See [`Egress::next_hop`].
    pub next_hop: Option<Seq<char>>,
}

impl View for Egress {
    type V = EgressModel;

    open spec fn view(&self) -> EgressModel {
        EgressModel {
            interface: text::optional_text(self.interface),
            container: text::optional_text(self.container),
            next_hop: text::optional_text(self.next_hop),
        }
    }
}

impl Default for Egress {
    fn default() -> (r: Self)
        ensures
            r@ == (EgressModel { interface: None, container: None, next_hop: None }),
    {
        Egress { interface: None, container: None, next_hop: None }
    }
}

impl Clone for Egress {
    fn clone(&self) -> (r: Self)
        ensures
            r@ == self@,
    {
        Egress {
            interface: self.interface.clone(),
            container: self.container.clone(),
            next_hop: self.next_hop.clone(),
        }
    }
}

/// A gateway: an egress target and its routing knobs.
#[derive(Debug, PartialEq, Eq)]
pub struct Gateway {
    /// The name, which `<prefix>.via` refers to.
    pub name: String,
    /// Where marked traffic leaves.
    pub egress: Egress,
    /// Whether to masquerade onto the egress. Unset, it is on for an interface
    /// and off otherwise.
    pub snat: Option<bool>,
    /// The firewall mark, such as `"0x4"`. Unset, it is derived from the name.
    pub mark: Option<String>,
    /// The routing table. Unset, it is derived from the name.
    pub table: Option<u32>,
    /// Whether this gateway is used by a container that names none.
    pub default: bool,
    /// The destinations that stay direct. Empty stands for the private ranges.
    pub local_subnets: Vec<String>,
    /// Containers that match any of these selectors are routed here without an
    /// opt-in of their own.
    pub members: Vec<Selector>,
}

/// The model of a [`Gateway`].
pub struct GatewayModel {
    /// See [`Gateway::name`].
    pub name: Seq<char>,
    /// See [`Gateway::egress`].
    pub egress: EgressModel,
    /// See [`Gateway::snat`].
    pub snat: Option<bool>,
    /// See [`Gateway::mark`].
    pub mark: Option<Seq<char>>,
    /// See [`Gateway::table`].
    pub table: Option<u32>,
    /// See [`Gateway::default`].
    pub default: bool,
    /// See [`Gateway::local_subnets`].
    pub local_subnets: Seq<Seq<char>>,
    /// See [`Gateway::members`].
    pub members: Seq<Map<Seq<char>, Seq<char>>>,
}

/// The contents of a list of selectors.
pub open spec fn selectors(v: Seq<Selector>) -> Seq<Map<Seq<char>, Seq<char>>> {
    v.map_values(|s: Selector| ordered::text_map(s@))
}

impl View for Gateway {
    type V = GatewayModel;

    open spec fn view(&self) -> GatewayModel {
        GatewayModel {
            name: self.name@,
            egress: self.egress@,
            snat: self.snat,
            mark: text::optional_text(self.mark),
            table: self.table,
            default: self.default,
            local_subnets: text::texts(self.local_subnets@),
            members: selectors(self.members@),
        }
    }
}

fn copy_selectors(v: &Vec<Selector>) -> (r: Vec<Selector>)
    ensures
        selectors(r@) == selectors(v@),
{
    let mut r: Vec<Selector> = Vec::new();
    for i in 0..v.len()
        invariant
            selectors(r@) == selectors(v@).take(i as int),
    {
        let ghost before = selectors(r@);
        r.push(v[i].clone());
        assert(selectors(r@) == before.push(selectors(v@)[i as int]));
    }
    assert(selectors(v@).take(v@.len() as int) == selectors(v@));
    r
}

impl Clone for Gateway {
    fn clone(&self) -> (r: Self)
        ensures
            r@ == self@,
    {
        Gateway {
            name: self.name.clone(),
            egress: self.egress.clone(),
            snat: self.snat,
            mark: self.mark.clone(),
            table: self.table,
            default: self.default,
            local_subnets: copy_texts(&self.local_subnets),
            members: copy_selectors(&self.members),
        }
    }
}

/// The models of a list of gateways.
pub open spec fn models(v: Seq<Gateway>) -> Seq<GatewayModel> {
    v.map_values(|g: Gateway| g@)
}

// ---------------------------------------------------------------------------
// Marks and tables

/// The mark that a text stands for: a decimal number, or a hexadecimal one
/// after `0x`, of 32 bits.
pub open spec fn mark_named(s: Seq<char>) -> Option<u32> {
    let t = text::trim_of(s);
    let value = if t.len() >= 2 && t[0] == '0' && t[1] == 'x' {
        text::number_value(t.skip(2), 16, u32::MAX as nat)
    } else {
        text::number_value(t, 10, u32::MAX as nat)
    };
    match value {
        Ok(n) => Some(n as u32),
        Err(_) => None,
    }
}

/// Parses a mark, such as `"0x4"` or `"4"`.
pub fn parse_mark(s: &str) -> (r: Result<u32, ConfigError>)
    ensures
        match r {
            Ok(n) => mark_named(s@) == Some(n),
            Err(e) => mark_named(s@) is None && e@ == (ConfigFault::NotU32 { text: text::trim_of(s@) }),
        },
{
    let t = trim(s);
    let v = chars_of(t.as_str());
    let value = if v.len() >= 2 && v[0] == '0' && v[1] == 'x' {
        let digits = text_between(&v, 2, v.len());
        assert(digits@ == t@.skip(2));
        parse_hex_u32(digits.as_str())
    } else {
        parse_u32(t.as_str())
    };
    match value {
        Ok(n) => Ok(n),
        Err(_) => Err(ConfigError::NotU32 { text: t }),
    }
}

/// The 32-bit FNV-1a hash of a sequence of bytes.
pub open spec fn fnv1a_of(bytes: Seq<u8>) -> u32
    decreases bytes.len(),
{
    if bytes.len() == 0 {
        0x811c_9dc5
    } else {
        (((fnv1a_of(bytes.drop_last()) ^ (bytes.last() as u32)) * 0x0100_0193) % 0x1_0000_0000) as u32
    }
}

/// The 32-bit FNV-1a hash of a text in UTF-8. It never changes, so what is
/// derived from a gateway's name does not either.
pub fn fnv1a(s: &str) -> (r: u32)
    ensures
        r == fnv1a_of(vstd::utf8::encode_utf8(s@)),
{
    let bytes = s.as_bytes();
    let mut h: u32 = 0x811c_9dc5;
    for i in 0..bytes.len()
        invariant
            bytes@ == vstd::utf8::encode_utf8(s@),
            h == fnv1a_of(bytes@.take(i as int)),
    {
        assert(bytes@.take(i + 1).drop_last() == bytes@.take(i as int));
        h = h ^ (bytes[i] as u32);
        h = h.wrapping_mul(0x0100_0193);
    }
    assert(bytes@.take(bytes@.len() as int) == bytes@);
    h
}

/// The mark derived from a gateway's name.
pub open spec fn auto_mark_of(name: Seq<char>) -> u32 {
    (0x1000 + fnv1a_of(vstd::utf8::encode_utf8(name)) % 0xE000) as u32
}

/// The mark derived from a gateway's name: 16 bits, never zero.
pub fn auto_mark(name: &str) -> (r: u32)
    ensures
        r == auto_mark_of(name@),
        0x1000 <= r <= 0xFFFF,
{
    0x1000 + (fnv1a(name) % 0xE000)
}

/// The routing table derived from a gateway's name.
pub open spec fn auto_table_of(name: Seq<char>) -> u32 {
    (5000 + fnv1a_of(vstd::utf8::encode_utf8(name)) % 1000) as u32
}

/// The routing table derived from a gateway's name, in a range of its own.
pub fn auto_table(name: &str) -> (r: u32)
    ensures
        r == auto_table_of(name@),
        5000 <= r <= 5999,
{
    5000 + (fnv1a(name) % 1000)
}

/// The mark in effect: the one given, if it is a number, or the one derived
/// from the name.
pub open spec fn mark_of(g: GatewayModel) -> Option<u32> {
    match g.mark {
        Some(m) => mark_named(m),
        None => Some(auto_mark_of(g.name)),
    }
}

/// The routing table in effect.
pub open spec fn table_of(g: GatewayModel) -> u32 {
    match g.table {
        Some(t) => t,
        None => auto_table_of(g.name),
    }
}

/// Whether to masquerade onto the egress.
pub open spec fn snat_of(g: GatewayModel) -> bool {
    match g.snat {
        Some(on) => on,
        None => g.egress.interface is Some,
    }
}

/// The private IPv4 ranges.
pub open spec fn default_local_subnets() -> Seq<Seq<char>> {
    seq!["10.0.0.0/8"@, "172.16.0.0/12"@, "192.168.0.0/16"@]
}

/// The destinations that stay direct.
pub open spec fn local_subnets_of(g: GatewayModel) -> Seq<Seq<char>> {
    if g.local_subnets.len() == 0 {
        default_local_subnets()
    } else {
        g.local_subnets
    }
}

// ---------------------------------------------------------------------------
// Validity

/// Whether a character may stand in an interface name.
pub open spec fn interface_char(c: char) -> bool {
    ||| 'A' <= c <= 'Z'
    ||| 'a' <= c <= 'z'
    ||| '0' <= c <= '9'
    ||| c == '.'
    ||| c == '-'
    ||| c == '_'
}

/// Whether a text is an interface name: 1 to 15 of `[A-Za-z0-9._-]`.
pub open spec fn interface_name(s: Seq<char>) -> bool {
    1 <= s.len() <= 15 && forall|i: int| 0 <= i < s.len() ==> interface_char(#[trigger] s[i])
}

/// Whether `name` is an interface name, which is safe to put into the ruleset.
pub fn valid_ifname(name: &str) -> (r: bool)
    ensures
        r == interface_name(name@),
{
    let v = chars_of(name);
    if v.len() < 1 || v.len() > 15 {
        return false;
    }
    for i in 0..v.len()
        invariant
            v@ == name@,
            forall|k: int| 0 <= k < i ==> interface_char(#[trigger] v@[k]),
    {
        let c = v[i];
        let ok = ('A' <= c && c <= 'Z') || ('a' <= c && c <= 'z') || ('0' <= c && c <= '9') || c
            == '.' || c == '-' || c == '_';
        if !ok {
            assert(!interface_char(name@[i as int]));
            return false;
        }
    }
    true
}

/// How many kinds of egress are set.
pub open spec fn egress_kinds(e: EgressModel) -> nat {
    (if e.interface is Some {
        1nat
    } else {
        0
    }) + (if e.container is Some {
        1nat
    } else {
        0
    }) + (if e.next_hop is Some {
        1nat
    } else {
        0
    })
}

/// What parsing a list of subnets gives.
pub open spec fn parse_results(v: Seq<Result<Network, String>>) -> Seq<Result<Network, Seq<char>>> {
    v.map_values(
        |r: Result<Network, String>|
            match r {
                Ok(n) => Ok::<Network, Seq<char>>(n),
                Err(e) => Err(e@),
            },
    )
}

/// What parsing a subnet gives.
pub open spec fn subnet_named(s: Seq<char>) -> Result<Network, Seq<char>> {
    match net::network_named(s) {
        Some(n) => Ok(n),
        None => Err("invalid address: "@ + s),
    }
}

/// What parsing a list of subnets gives.
pub open spec fn subnets_named(v: Seq<Seq<char>>) -> Seq<Result<Network, Seq<char>>> {
    v.map_values(|s: Seq<char>| subnet_named(s))
}

/// The first thing that is wrong with a gateway, given its next hop and its
/// local subnets parsed.
pub open spec fn gateway_fault_with(
    g: GatewayModel,
    next_hop: Option<IpAddr>,
    subnets: Seq<Result<Network, Seq<char>>>,
) -> Option<ConfigFault> {
    let bad_subnet = seqs::first_where(subnets, |s: Result<Network, Seq<char>>| s is Err);
    if egress_kinds(g.egress) != 1 {
        Some(ConfigFault::EgressKinds { gateway: g.name, set: egress_kinds(g.egress) })
    } else if g.mark is Some && mark_named(g.mark->0) is None {
        Some(ConfigFault::BadMark { gateway: g.name, mark: g.mark->0 })
    } else if g.mark is Some && mark_named(g.mark->0) == Some(0u32) {
        Some(ConfigFault::ZeroMark { gateway: g.name })
    } else if g.table == Some(0u32) {
        Some(ConfigFault::ZeroTable { gateway: g.name })
    } else if g.egress.interface is Some && !interface_name(g.egress.interface->0) {
        Some(ConfigFault::BadInterface { gateway: g.name, interface: g.egress.interface->0 })
    } else if g.egress.next_hop is Some && next_hop is None {
        Some(ConfigFault::BadNextHop { gateway: g.name, next_hop: g.egress.next_hop->0 })
    } else if bad_subnet is Some {
        Some(
            ConfigFault::BadLocalSubnet {
                gateway: g.name,
                subnet: g.local_subnets[bad_subnet->0],
                cause: subnets[bad_subnet->0]->Err_0,
            },
        )
    } else if g.members.contains(Map::empty()) {
        Some(ConfigFault::EmptySelector { gateway: g.name })
    } else {
        None
    }
}

/// The first thing that is wrong with a gateway.
pub open spec fn gateway_fault(g: GatewayModel) -> Option<ConfigFault> {
    let next_hop = match g.egress.next_hop {
        Some(s) => net::ip_named(s),
        None => None,
    };
    gateway_fault_with(g, next_hop, subnets_named(g.local_subnets))
}

/// Parses each of a list of subnets.
pub fn parse_subnets(v: &Vec<String>) -> (r: Vec<Result<Network, String>>)
    ensures
        parse_results(r@) == subnets_named(text::texts(v@)),
        r@.len() == v@.len(),
{
    let mut r: Vec<Result<Network, String>> = Vec::new();
    for i in 0..v.len()
        invariant
            parse_results(r@) == subnets_named(text::texts(v@)).take(i as int),
            r@.len() == i,
    {
        let ghost before = parse_results(r@);
        r.push(Network::parse(v[i].as_str()));
        assert(parse_results(r@) == before.push(subnets_named(text::texts(v@))[i as int]));
    }
    assert(subnets_named(text::texts(v@)).take(v@.len() as int) == subnets_named(text::texts(v@)));
    r
}

impl Gateway {
    /// The mark in effect: the one given, or the one derived from the name.
    pub fn mark_value(&self) -> (r: Result<u32, ConfigError>)
        ensures
            match r {
                Ok(m) => mark_of(self@) == Some(m),
                Err(e) => mark_of(self@) is None && e@ == (ConfigFault::BadMark {
                    gateway: self@.name,
                    mark: self@.mark->0,
                }),
            },
    {
        match &self.mark {
            Some(m) => match parse_mark(m.as_str()) {
                Ok(n) => Ok(n),
                Err(_) => Err(
                    ConfigError::BadMark { gateway: self.name.clone(), mark: m.clone() },
                ),
            },
            None => Ok(auto_mark(self.name.as_str())),
        }
    }

    /// The routing table in effect: the one given, or the one derived from the
    /// name.
    pub fn table_id(&self) -> (r: u32)
        ensures
            r == table_of(self@),
    {
        match self.table {
            Some(t) => t,
            None => auto_table(self.name.as_str()),
        }
    }

    /// Whether to masquerade onto the egress: as given, or only for an
    /// interface.
    pub fn snat_enabled(&self) -> (r: bool)
        ensures
            r == snat_of(self@),
    {
        match self.snat {
            Some(on) => on,
            None => self.egress.interface.is_some(),
        }
    }

    /// The destinations that stay direct: the ones given, or the private
    /// ranges.
    pub fn local_subnets_effective(&self) -> (r: Vec<String>)
        ensures
            text::texts(r@) == local_subnets_of(self@),
    {
        if self.local_subnets.len() == 0 {
            let r = vec![
                "10.0.0.0/8".to_owned(),
                "172.16.0.0/12".to_owned(),
                "192.168.0.0/16".to_owned(),
            ];
            assert(text::texts(r@) == default_local_subnets());
            r
        } else {
            copy_texts(&self.local_subnets)
        }
    }

    /// Checks the gateway, given its next hop and its local subnets parsed.
    pub fn validate_with(
        &self,
        next_hop: Option<IpAddr>,
        subnets: &Vec<Result<Network, String>>,
    ) -> (r: Result<(), ConfigError>)
        requires
            subnets@.len() == self.local_subnets@.len(),
        ensures
            match r {
                Ok(_) => gateway_fault_with(self@, next_hop, parse_results(subnets@)) is None,
                Err(e) => gateway_fault_with(self@, next_hop, parse_results(subnets@)) == Some(e@),
            },
    {
        let set: u64 = (if self.egress.interface.is_some() {
            1u64
        } else {
            0
        }) + (if self.egress.container.is_some() {
            1u64
        } else {
            0
        }) + (if self.egress.next_hop.is_some() {
            1u64
        } else {
            0
        });
        if set != 1 {
            return Err(ConfigError::EgressKinds { gateway: self.name.clone(), set });
        }
        if let Some(m) = &self.mark {
            match parse_mark(m.as_str()) {
                Err(_) => {
                    return Err(
                        ConfigError::BadMark { gateway: self.name.clone(), mark: m.clone() },
                    );
                },
                Ok(v) => {
                    if v == 0 {
                        return Err(ConfigError::ZeroMark { gateway: self.name.clone() });
                    }
                },
            }
        }
        if let Some(t) = self.table {
            if t == 0 {
                return Err(ConfigError::ZeroTable { gateway: self.name.clone() });
            }
        }
        if let Some(iface) = &self.egress.interface {
            if !valid_ifname(iface.as_str()) {
                return Err(
                    ConfigError::BadInterface {
                        gateway: self.name.clone(),
                        interface: iface.clone(),
                    },
                );
            }
        }
        if let Some(nh) = &self.egress.next_hop {
            if next_hop.is_none() {
                return Err(
                    ConfigError::BadNextHop { gateway: self.name.clone(), next_hop: nh.clone() },
                );
            }
        }
        let ghost results = parse_results(subnets@);
        let ghost bad = |s: Result<Network, Seq<char>>| s is Err;
        for i in 0..subnets.len()
            invariant
                subnets@.len() == self.local_subnets@.len(),
                results == parse_results(subnets@),
                bad == (|s: Result<Network, Seq<char>>| s is Err),
                forall|k: int| 0 <= k < i ==> !bad(#[trigger] results[k]),
                gateway_fault_with(self@, next_hop, results) == (if seqs::first_where(
                    results,
                    bad,
                ) is Some {
                    Some(
                        ConfigFault::BadLocalSubnet {
                            gateway: self@.name,
                            subnet: self@.local_subnets[seqs::first_where(results, bad)->0],
                            cause: results[seqs::first_where(results, bad)->0]->Err_0,
                        },
                    )
                } else if self@.members.contains(Map::empty()) {
                    Some(ConfigFault::EmptySelector { gateway: self@.name })
                } else {
                    None
                }),
        {
            if let Err(cause) = &subnets[i] {
                proof {
                    seqs::lemma_first_is(results, bad, i as int);
                }
                return Err(
                    ConfigError::BadLocalSubnet {
                        gateway: self.name.clone(),
                        subnet: self.local_subnets[i].clone(),
                        cause: cause.clone(),
                    },
                );
            }
        }
        proof {
            seqs::lemma_first_none(results, bad);
        }
        for i in 0..self.members.len()
            invariant
                gateway_fault_with(self@, next_hop, results) == (if self@.members.contains(
                    Map::empty(),
                ) {
                    Some(ConfigFault::EmptySelector { gateway: self@.name })
                } else {
                    None
                }),
                results == parse_results(subnets@),
                forall|k: int|
                    0 <= k < i ==> #[trigger] self@.members[k] != Map::<
                        Seq<char>,
                        Seq<char>,
                    >::empty(),
        {
            proof {
                lemma_text_map_empty(self.members@[i as int]@);
                assert(self@.members[i as int] == ordered::text_map(self.members@[i as int]@));
            }
            if self.members[i].is_empty() {
                return Err(ConfigError::EmptySelector { gateway: self.name.clone() });
            }
        }
        Ok(())
    }

    /// Checks the gateway: exactly one kind of egress, and everything that is
    /// given well-formed.
    pub fn validate(&self) -> (r: Result<(), ConfigError>)
        ensures
            match r {
                Ok(_) => gateway_fault(self@) is None,
                Err(e) => gateway_fault(self@) == Some(e@),
            },
    {
        let next_hop = match &self.egress.next_hop {
            Some(s) => IpAddr::parse(s.as_str()),
            None => None,
        };
        let subnets = parse_subnets(&self.local_subnets);
        self.validate_with(next_hop, &subnets)
    }
}

/// A map of strings is empty exactly when the map of their texts is.
pub proof fn lemma_text_map_empty(m: Map<Seq<char>, String>)
    ensures
        m == Map::<Seq<char>, String>::empty() <==> ordered::text_map(m) == Map::<
            Seq<char>,
            Seq<char>,
        >::empty(),
{
    let e = Map::<Seq<char>, Seq<char>>::empty();
    if m == Map::<Seq<char>, String>::empty() {
        assert(ordered::text_map(m) =~= e);
    }
    if ordered::text_map(m) == e {
        assert forall|k: Seq<char>| !m.dom().contains(k) by {
            assert(!ordered::text_map(m).dom().contains(k));
        }
        assert(m =~= Map::<Seq<char>, String>::empty());
    }
}

// ---------------------------------------------------------------------------
// Sets of gateways

/// A set of gateways, in the order in which they were listed.
#[derive(Debug, PartialEq, Eq)]
pub struct Gateways(pub Vec<Gateway>);

impl View for Gateways {
    type V = Seq<GatewayModel>;

    open spec fn view(&self) -> Seq<GatewayModel> {
        models(self.0@)
    }
}

impl Default for Gateways {
    fn default() -> (r: Self)
        ensures
            r@ == Seq::<GatewayModel>::empty(),
    {
        let r = Gateways(Vec::new());
        assert(r@ =~= Seq::<GatewayModel>::empty());
        r
    }
}

impl Clone for Gateways {
    fn clone(&self) -> (r: Self)
        ensures
            r@ == self@,
    {
        let mut v: Vec<Gateway> = Vec::new();
        for i in 0..self.0.len()
            invariant
                models(v@) == self@.take(i as int),
        {
            let ghost before = models(v@);
            v.push(self.0[i].clone());
            assert(models(v@) == before.push(self@[i as int]));
        }
        assert(self@.take(self@.len() as int) == self@);
        Gateways(v)
    }
}

/// The last gateway whose mark is `mark`.
pub open spec fn mark_holder(gs: Seq<GatewayModel>, mark: u32) -> Option<Seq<char>>
    decreases gs.len(),
{
    if gs.len() == 0 {
        None
    } else if mark_of(gs.last()) == Some(mark) {
        Some(gs.last().name)
    } else {
        mark_holder(gs.drop_last(), mark)
    }
}

/// The last gateway whose routing table is `table`.
pub open spec fn table_holder(gs: Seq<GatewayModel>, table: u32) -> Option<Seq<char>>
    decreases gs.len(),
{
    if gs.len() == 0 {
        None
    } else if table_of(gs.last()) == table {
        Some(gs.last().name)
    } else {
        table_holder(gs.drop_last(), table)
    }
}

/// The first thing that keeps the gateways from being told apart by mark and
/// routing table.
pub open spec fn routing_fault(gs: Seq<GatewayModel>) -> Option<ConfigFault>
    decreases gs.len(),
{
    if gs.len() == 0 {
        None
    } else {
        let earlier = gs.drop_last();
        let g = gs.last();
        match routing_fault(earlier) {
            Some(f) => Some(f),
            None => match mark_of(g) {
                None => Some(ConfigFault::BadMark { gateway: g.name, mark: g.mark->0 }),
                Some(mark) => match mark_holder(earlier, mark) {
                    Some(first) => Some(ConfigFault::SameMark { first, second: g.name, mark }),
                    None => match table_holder(earlier, table_of(g)) {
                        Some(first) => Some(
                            ConfigFault::SameTable { first, second: g.name, table: table_of(g) },
                        ),
                        None => None,
                    },
                },
            },
        }
    }
}

/// The models of a list of references to gateways.
pub open spec fn models_at(v: Seq<&Gateway>) -> Seq<GatewayModel> {
    v.map_values(|g: &Gateway| g@)
}

/// A fault among the first gateways is the fault of all of them.
proof fn lemma_routing_stops(gs: Seq<GatewayModel>, n: int)
    requires
        0 <= n <= gs.len(),
        routing_fault(gs.take(n)) is Some,
    ensures
        routing_fault(gs) == routing_fault(gs.take(n)),
    decreases gs.len() - n,
{
    if n < gs.len() {
        assert(gs.take(n + 1).drop_last() == gs.take(n));
        lemma_routing_stops(gs, n + 1);
    } else {
        assert(gs.take(n) == gs);
    }
}

/// Finds the last of the first `n` gateways whose mark is `mark`.
fn find_mark_holder(gateways: &Vec<&Gateway>, n: usize, mark: u32) -> (r: Option<String>)
    requires
        n <= gateways@.len(),
    ensures
        text::optional_text(r) == mark_holder(models_at(gateways@).take(n as int), mark),
{
    let ghost gs = models_at(gateways@);
    let mut i = n;
    while i > 0
        invariant
            i <= n <= gateways@.len(),
            gs == models_at(gateways@),
            mark_holder(gs.take(n as int), mark) == mark_holder(gs.take(i as int), mark),
        decreases i,
    {
        let g = gateways[i - 1];
        assert(gs.take(i as int).drop_last() == gs.take(i - 1));
        assert(gs.take(i as int).last() == g@);
        if let Ok(m) = g.mark_value() {
            if m == mark {
                return Some(g.name.clone());
            }
        }
        i = i - 1;
    }
    None
}

/// Finds the last of the first `n` gateways whose routing table is `table`.
fn find_table_holder(gateways: &Vec<&Gateway>, n: usize, table: u32) -> (r: Option<String>)
    requires
        n <= gateways@.len(),
    ensures
        text::optional_text(r) == table_holder(models_at(gateways@).take(n as int), table),
{
    let ghost gs = models_at(gateways@);
    let mut i = n;
    while i > 0
        invariant
            i <= n <= gateways@.len(),
            gs == models_at(gateways@),
            table_holder(gs.take(n as int), table) == table_holder(gs.take(i as int), table),
        decreases i,
    {
        let g = gateways[i - 1];
        assert(gs.take(i as int).drop_last() == gs.take(i - 1));
        assert(gs.take(i as int).last() == g@);
        if g.table_id() == table {
            return Some(g.name.clone());
        }
        i = i - 1;
    }
    None
}

/// Checks that no two gateways share a mark or a routing table. Two that do
/// would send the members of one out of the egress of the other.
pub fn check_unique_routing(gateways: &Vec<&Gateway>) -> (r: Result<(), ConfigError>)
    ensures
        match r {
            Ok(_) => routing_fault(models_at(gateways@)) is None,
            Err(e) => routing_fault(models_at(gateways@)) == Some(e@),
        },
{
    let ghost gs = models_at(gateways@);
    for i in 0..gateways.len()
        invariant
            gs == models_at(gateways@),
            routing_fault(gs.take(i as int)) is None,
    {
        let g = gateways[i];
        assert(gs.take(i + 1).drop_last() == gs.take(i as int));
        assert(gs.take(i + 1).last() == g@);
        let mark = match g.mark_value() {
            Ok(m) => m,
            Err(e) => {
                proof {
                    lemma_routing_stops(gs, i + 1);
                }
                return Err(e);
            },
        };
        if let Some(first) = find_mark_holder(gateways, i, mark) {
            proof {
                lemma_routing_stops(gs, i + 1);
            }
            return Err(ConfigError::SameMark { first, second: g.name.clone(), mark });
        }
        let table = g.table_id();
        if let Some(first) = find_table_holder(gateways, i, table) {
            proof {
                lemma_routing_stops(gs, i + 1);
            }
            return Err(ConfigError::SameTable { first, second: g.name.clone(), table });
        }
    }
    assert(gs.take(gs.len() as int) == gs);
    Ok(())
}

/// Whether a gateway of this name is among `gs`.
pub open spec fn has_name(gs: Seq<GatewayModel>, name: Seq<char>) -> bool {
    exists|i: int| 0 <= i < gs.len() && (#[trigger] gs[i]).name == name
}

/// The first gateway that is malformed or has the name of an earlier one.
pub open spec fn listing_fault(gs: Seq<GatewayModel>) -> Option<ConfigFault>
    decreases gs.len(),
{
    if gs.len() == 0 {
        None
    } else {
        match listing_fault(gs.drop_last()) {
            Some(f) => Some(f),
            None => match gateway_fault(gs.last()) {
                Some(f) => Some(f),
                None => if has_name(gs.drop_last(), gs.last().name) {
                    Some(ConfigFault::DuplicateGateway { gateway: gs.last().name })
                } else {
                    None
                },
            },
        }
    }
}

/// How many gateways are the default.
pub open spec fn default_count(gs: Seq<GatewayModel>) -> nat
    decreases gs.len(),
{
    if gs.len() == 0 {
        0
    } else {
        default_count(gs.drop_last()) + (if gs.last().default {
            1nat
        } else {
            0
        })
    }
}

/// The first thing that is wrong with a set of gateways.
pub open spec fn gateways_fault(gs: Seq<GatewayModel>) -> Option<ConfigFault> {
    match listing_fault(gs) {
        Some(f) => Some(f),
        None => if default_count(gs) > 1 {
            Some(ConfigFault::ManyDefaults)
        } else {
            routing_fault(gs)
        },
    }
}

/// A fault among the first gateways is the fault of all of them.
proof fn lemma_listing_stops(gs: Seq<GatewayModel>, n: int)
    requires
        0 <= n <= gs.len(),
        listing_fault(gs.take(n)) is Some,
    ensures
        listing_fault(gs) == listing_fault(gs.take(n)),
    decreases gs.len() - n,
{
    if n < gs.len() {
        assert(gs.take(n + 1).drop_last() == gs.take(n));
        lemma_listing_stops(gs, n + 1);
    } else {
        assert(gs.take(n) == gs);
    }
}

/// Whether a gateway has this name.
pub open spec fn named(name: Seq<char>) -> spec_fn(GatewayModel) -> bool {
    |g: GatewayModel| g.name == name
}

/// Whether a gateway is the default.
pub open spec fn is_default() -> spec_fn(GatewayModel) -> bool {
    |g: GatewayModel| g.default
}

/// The gateway that a `via` label names; without one, the default gateway, or
/// the only one.
pub open spec fn resolved(gs: Seq<GatewayModel>, via: Option<Seq<char>>) -> Option<int> {
    match via {
        Some(name) => seqs::first_where(gs, named(name)),
        None => match seqs::first_where(gs, is_default()) {
            Some(i) => Some(i),
            None => if gs.len() == 1 {
                Some(0)
            } else {
                None
            },
        },
    }
}

/// Whether one of the first `n` gateways has this name.
pub fn name_taken(gateways: &Vec<Gateway>, n: usize, name: &str) -> (r: bool)
    requires
        n <= gateways@.len(),
    ensures
        r == has_name(models(gateways@).take(n as int), name@),
{
    let ghost gs = models(gateways@).take(n as int);
    for i in 0..n
        invariant
            n <= gateways@.len(),
            gs == models(gateways@).take(n as int),
            forall|k: int| 0 <= k < i ==> (#[trigger] gs[k]).name != name@,
    {
        assert(gs[i as int] == gateways@[i as int]@);
        if same(gateways[i].name.as_str(), name) {
            return true;
        }
    }
    false
}

impl Gateways {
    /// Whether a gateway of this name is in the set.
    pub fn has(&self, name: &str) -> (r: bool)
        ensures
            r == has_name(self@, name@),
    {
        assert(self@.take(self@.len() as int) == self@);
        name_taken(&self.0, self.0.len(), name)
    }

    /// Checks the whole set: each gateway, that names are unique, that at most
    /// one is the default, and that marks and tables are unique.
    pub fn validate(&self) -> (r: Result<(), ConfigError>)
        ensures
            match r {
                Ok(_) => gateways_fault(self@) is None,
                Err(e) => gateways_fault(self@) == Some(e@),
            },
    {
        let mut defaults: usize = 0;
        for i in 0..self.0.len()
            invariant
                listing_fault(self@.take(i as int)) is None,
                defaults == default_count(self@.take(i as int)),
                defaults <= i,
        {
            let gw = &self.0[i];
            assert(self@.take(i + 1).drop_last() == self@.take(i as int));
            assert(self@.take(i + 1).last() == gw@);
            if let Err(e) = gw.validate() {
                proof {
                    lemma_listing_stops(self@, i + 1);
                }
                return Err(e);
            }
            if name_taken(&self.0, i, gw.name.as_str()) {
                proof {
                    lemma_listing_stops(self@, i + 1);
                }
                return Err(ConfigError::DuplicateGateway { gateway: gw.name.clone() });
            }
            if gw.default {
                defaults = defaults + 1;
            }
        }
        assert(self@.take(self@.len() as int) == self@);
        if defaults > 1 {
            return Err(ConfigError::ManyDefaults);
        }
        let mut all: Vec<&Gateway> = Vec::new();
        for i in 0..self.0.len()
            invariant
                models_at(all@) == self@.take(i as int),
        {
            let ghost before = models_at(all@);
            all.push(&self.0[i]);
            assert(models_at(all@) == before.push(self@[i as int]));
        }
        assert(self@.take(self@.len() as int) == self@);
        check_unique_routing(&all)
    }

    /// Resolves a `via` label, or `None` for "the default", to a gateway. The
    /// only gateway there is is the default without saying so.
    pub fn resolve(&self, wanted: Option<&str>) -> (r: Option<&Gateway>)
        ensures
            match (r, resolved(self@, crate::text::optional_str(wanted))) {
                (Some(g), Some(i)) => 0 <= i < self.0@.len() && *g == self.0@[i],
                (None, None) => true,
                _ => false,
            },
    {
        match wanted {
            Some(name) => {
                for i in 0..self.0.len()
                    invariant
                        wanted == Some(name),
                        forall|k: int| 0 <= k < i ==> !named(name@)(#[trigger] self@[k]),
                {
                    assert(self@[i as int] == self.0@[i as int]@);
                    if same(self.0[i].name.as_str(), name) {
                        proof {
                            assert(named(name@)(self@[i as int]));
                            seqs::lemma_first_is(self@, named(name@), i as int);
                        }
                        return Some(&self.0[i]);
                    }
                }
                proof {
                    seqs::lemma_first_none(self@, named(name@));
                }
                None
            },
            None => {
                for i in 0..self.0.len()
                    invariant
                        wanted is None,
                        forall|k: int| 0 <= k < i ==> !is_default()(#[trigger] self@[k]),
                {
                    assert(self@[i as int] == self.0@[i as int]@);
                    if self.0[i].default {
                        proof {
                            assert(is_default()(self@[i as int]));
                            seqs::lemma_first_is(self@, is_default(), i as int);
                        }
                        return Some(&self.0[i]);
                    }
                }
                proof {
                    seqs::lemma_first_none(self@, is_default());
                }
                if self.0.len() == 1 {
                    Some(&self.0[0])
                } else {
                    None
                }
            },
        }
    }
}

/// Checks what a reader made of a gateways document: a list of gateways, or
/// why it is none.
pub fn parse_gateways(document: Result<Vec<Gateway>, String>) -> (r: Result<Gateways, ConfigError>)
    ensures
        match (document, r) {
            (Ok(list), Ok(gws)) => gws.0 == list && gateways_fault(models(list@)) is None,
            (Ok(list), Err(e)) => gateways_fault(models(list@)) == Some(e@),
            (Err(reason), Ok(_)) => false,
            (Err(reason), Err(e)) => e@ == (ConfigFault::Document { reason: reason@ }),
        },
{
    match document {
        Err(reason) => Err(ConfigError::Document { reason }),
        Ok(list) => {
            let gws = Gateways(list);
            match gws.validate() {
                Ok(_) => Ok(gws),
                Err(e) => Err(e),
            }
        },
    }
}

// ---------------------------------------------------------------------------
// Labels

/// The value of a label.
pub open spec fn label_of(labels: Map<Seq<char>, Seq<char>>, key: Seq<char>) -> Option<Seq<char>> {
    if labels.dom().contains(key) {
        Some(labels[key])
    } else {
        None
    }
}

/// The value of a label.
pub fn label(labels: &Labels, key: &str) -> (r: Option<String>)
    ensures
        text::optional_text(r) == label_of(ordered::text_map(labels@), key@),
{
    match labels.get(key) {
        Some(v) => Some(v.clone()),
        None => None,
    }
}

/// Whether a container opts in, and the gateway that it then names.
pub open spec fn opt_in_of(prefix: Seq<char>, labels: Map<Seq<char>, Seq<char>>) -> Option<
    Option<Seq<char>>,
> {
    if label_of(labels, prefix + ".enable"@) == Some("true"@) {
        Some(label_of(labels, prefix + ".via"@))
    } else {
        None
    }
}

/// Whether a container opts in, and the gateway that it then names: `None` when
/// it does not, `Some(None)` for `<prefix>.enable` alone, which stands for the
/// default gateway, `Some(Some(g))` with `<prefix>.via: g`.
pub fn opt_in(prefix: &str, labels: &Labels) -> (r: Option<Option<String>>)
    ensures
        match r {
            Some(via) => opt_in_of(prefix@, ordered::text_map(labels@)) == Some(text::optional_text(via)),
            None => opt_in_of(prefix@, ordered::text_map(labels@)) is None,
        },
{
    let enable = label(labels, prefix.to_owned().concat(".enable").as_str());
    if crate::text::same_optional(&enable, "true") {
        Some(label(labels, prefix.to_owned().concat(".via").as_str()))
    } else {
        None
    }
}

/// The name under which a container declares itself a gateway.
pub open spec fn gateway_name_of(
    prefix: Seq<char>,
    labels: Map<Seq<char>, Seq<char>>,
) -> Option<Seq<char>> {
    match label_of(labels, prefix + ".gateway"@) {
        Some(s) => if text::trim_of(s).len() > 0 {
            Some(text::trim_of(s))
        } else {
            None
        },
        None => None,
    }
}

/// The name under which a container declares itself a gateway, with
/// `<prefix>.gateway`. `None` when the label is absent or blank.
pub fn gateway_name(prefix: &str, labels: &Labels) -> (r: Option<String>)
    ensures
        text::optional_text(r) == gateway_name_of(prefix@, ordered::text_map(labels@)),
{
    match label(labels, prefix.to_owned().concat(".gateway").as_str()) {
        Some(s) => {
            let name = trim(s.as_str());
            if name.as_str().is_empty() {
                None
            } else {
                Some(name)
            }
        },
        None => None,
    }
}

/// Whether labels satisfy a selector: it is not empty, and each label that it
/// lists is there with the value that it gives.
pub open spec fn selects(
    selector: Map<Seq<char>, Seq<char>>,
    labels: Map<Seq<char>, Seq<char>>,
) -> bool {
    &&& selector != Map::<Seq<char>, Seq<char>>::empty()
    &&& forall|k: Seq<char>| #[trigger]
        selector.dom().contains(k) ==> label_of(labels, k) == Some(selector[k])
}

/// Whether labels satisfy a selector.
pub fn selector_matches(selector: &Selector, labels: &Labels) -> (r: bool)
    ensures
        r == selects(ordered::text_map(selector@), ordered::text_map(labels@)),
{
    let ghost s = ordered::text_map(selector@);
    proof {
        lemma_text_map_empty(selector@);
    }
    if selector.is_empty() {
        return false;
    }
    let n = selector.len();
    for i in 0..n
        invariant
            n == ordered::sorted_keys(selector@).len(),
            ordered::sorted_keys(selector@).to_set() == selector@.dom(),
            s == ordered::text_map(selector@),
            forall|j: int|
                0 <= j < i ==> label_of(ordered::text_map(labels@), #[trigger] ordered::sorted_keys(selector@)[j])
                    == Some(s[ordered::sorted_keys(selector@)[j]]),
    {
        let key = selector.key_at(i);
        let value = selector.value_at(i);
        let found = label(labels, key);
        if !crate::text::same_optional(&found, value.as_str()) {
            assert(s.dom().contains(key@));
            return false;
        }
    }
    assert forall|k: Seq<char>| #[trigger] s.dom().contains(k) implies label_of(
        ordered::text_map(labels@),
        k,
    ) == Some(s[k]) by {
        assert(ordered::sorted_keys(selector@).to_set().contains(k));
        let j = choose|j: int|
            0 <= j < ordered::sorted_keys(selector@).len() && ordered::sorted_keys(selector@)[j] == k;
        assert(ordered::sorted_keys(selector@)[j] == k);
    }
    true
}

/// The selector that a list of `key=value` pairs stands for. A later pair
/// replaces an earlier one of the same key; what is no pair is left out.
pub open spec fn selector_of(pairs: Seq<Seq<char>>) -> Map<Seq<char>, Seq<char>>
    decreases pairs.len(),
{
    if pairs.len() == 0 {
        Map::empty()
    } else {
        match text::cut_at(pairs.last(), '=') {
            Some((k, v)) => selector_of(pairs.drop_last()).insert(text::trim_of(k), text::trim_of(v)),
            None => selector_of(pairs.drop_last()),
        }
    }
}

/// Inserting a string into a map inserts its text into the map of texts.
proof fn lemma_text_map_insert(m: Map<Seq<char>, String>, key: Seq<char>, value: String)
    ensures
        ordered::text_map(m.insert(key, value)) == ordered::text_map(m).insert(key, value@),
{
    assert(ordered::text_map(m.insert(key, value)) =~= ordered::text_map(m).insert(key, value@));
}

/// Parses a `members` label: comma-separated `key=value` pairs that form one
/// selector.
pub fn parse_selector_label(s: &str) -> (r: Selector)
    ensures
        ordered::text_map(r@) == selector_of(text::pieces(s@, ',')),
{
    let parts = split_on(s, ',');
    let ghost all = text::pieces(s@, ',');
    let mut r: Selector = TextMap::new();
    proof {
        lemma_text_map_empty(r@);
    }
    for i in 0..parts.len()
        invariant
            all == text::texts(parts@),
            ordered::text_map(r@) == selector_of(all.take(i as int)),
    {
        assert(all.take(i + 1).drop_last() == all.take(i as int));
        assert(all.take(i + 1).last() == parts@[i as int]@);
        if let Some((k, v)) = split_once(parts[i].as_str(), '=') {
            let key = trim(k.as_str());
            let value = trim(v.as_str());
            proof {
                lemma_text_map_insert(r@, key@, value);
            }
            r.insert(key, value);
        }
    }
    assert(all.take(all.len() as int) == all);
    r
}

/// The value of a gateway container's knob, without white space around it.
pub open spec fn knob_of(
    prefix: Seq<char>,
    labels: Map<Seq<char>, Seq<char>>,
    field: Seq<char>,
) -> Option<Seq<char>> {
    match label_of(labels, prefix + ".gateway."@ + field) {
        Some(s) => Some(text::trim_of(s)),
        None => None,
    }
}

fn knob(prefix: &str, labels: &Labels, field: &str) -> (r: Option<String>)
    ensures
        text::optional_text(r) == knob_of(prefix@, ordered::text_map(labels@), field@),
{
    match label(labels, prefix.to_owned().concat(".gateway.").concat(field).as_str()) {
        Some(s) => Some(trim(s.as_str())),
        None => None,
    }
}

/// The items of a list that are not blank, without white space around them.
pub open spec fn items_of(parts: Seq<Seq<char>>) -> Seq<Seq<char>>
    decreases parts.len(),
{
    if parts.len() == 0 {
        Seq::empty()
    } else {
        let item = text::trim_of(parts.last());
        if item.len() > 0 {
            items_of(parts.drop_last()).push(item)
        } else {
            items_of(parts.drop_last())
        }
    }
}

fn list_items(s: &str) -> (r: Vec<String>)
    ensures
        text::texts(r@) == items_of(text::pieces(s@, ',')),
{
    let parts = split_on(s, ',');
    let ghost all = text::pieces(s@, ',');
    let mut r: Vec<String> = Vec::new();
    for i in 0..parts.len()
        invariant
            all == text::texts(parts@),
            text::texts(r@) == items_of(all.take(i as int)),
    {
        assert(all.take(i + 1).drop_last() == all.take(i as int));
        assert(all.take(i + 1).last() == parts@[i as int]@);
        let item = trim(parts[i].as_str());
        if !item.as_str().is_empty() {
            let ghost before = text::texts(r@);
            let ghost text = item@;
            r.push(item);
            assert(text::texts(r@) == before.push(text));
        }
    }
    assert(all.take(all.len() as int) == all);
    r
}

/// Whether a knob is not set, or says `true` or `false`.
pub open spec fn flag_or_unset(knob: Option<Seq<char>>) -> bool {
    knob is None || knob == Some("true"@) || knob == Some("false"@)
}

/// What a flag says, where it says anything.
pub open spec fn flag_of(knob: Option<Seq<char>>) -> Option<bool> {
    match knob {
        Some(s) => Some(s == "true"@),
        None => None,
    }
}

/// Reads a flag; what is none is handed back.
fn read_flag(knob: Option<String>) -> (r: Result<Option<bool>, String>)
    ensures
        match r {
            Ok(flag) => flag_or_unset(text::optional_text(knob)) && flag == flag_of(
                text::optional_text(knob),
            ),
            Err(s) => !flag_or_unset(text::optional_text(knob)) && text::optional_text(knob)
                == Some(s@),
        },
{
    proof {
        reveal_strlit("true");
        reveal_strlit("false");
    }
    match knob {
        None => Ok(None),
        Some(s) => if same(s.as_str(), "true") {
            Ok(Some(true))
        } else if same(s.as_str(), "false") {
            Ok(Some(false))
        } else {
            Err(s)
        },
    }
}

/// Whether each part is a `key=value` pair or blank.
pub open spec fn all_pairs(parts: Seq<Seq<char>>) -> bool {
    forall|i: int|
        0 <= i < parts.len() ==> text::trim_of(#[trigger] parts[i]).len() == 0 || text::cut_at(
            parts[i],
            '=',
        ) is Some
}

/// Whether a `members` label is a list of pairs. Nothing between two commas is
/// passed over.
fn is_pair_list(s: &str) -> (r: bool)
    ensures
        r == all_pairs(text::pieces(s@, ',')),
{
    let parts = split_on(s, ',');
    let ghost all = text::pieces(s@, ',');
    for i in 0..parts.len()
        invariant
            all == text::texts(parts@),
            all == text::pieces(s@, ','),
            forall|k: int|
                0 <= k < i ==> text::trim_of(#[trigger] all[k]).len() == 0 || text::cut_at(
                    all[k],
                    '=',
                ) is Some,
    {
        assert(all[i as int] == parts@[i as int]@);
        if split_once(parts[i].as_str(), '=').is_none() && !trim(
            parts[i].as_str(),
        ).as_str().is_empty() {
            return false;
        }
    }
    true
}

/// What is wrong with the knobs of a gateway container that are read as
/// something other than text: the first of `snat`, `table`, `default` and
/// `members` that is malformed.
pub open spec fn knob_fault(
    prefix: Seq<char>,
    name: Seq<char>,
    labels: Map<Seq<char>, Seq<char>>,
) -> Option<ConfigFault> {
    let snat = knob_of(prefix, labels, "snat"@);
    let table = knob_of(prefix, labels, "table"@);
    let number = text::number_value(table->0, 10, u32::MAX as nat);
    let default = knob_of(prefix, labels, "default"@);
    let members = knob_of(prefix, labels, "members"@);
    if !flag_or_unset(snat) {
        Some(ConfigFault::BadSnatLabel { gateway: name, snat: snat->0 })
    } else if table is Some && number is Err {
        Some(
            ConfigFault::BadTableLabel { gateway: name, table: table->0, cause: number->Err_0 },
        )
    } else if !flag_or_unset(default) {
        Some(ConfigFault::BadDefaultLabel { gateway: name, default: default->0 })
    } else if members is Some && !all_pairs(text::pieces(members->0, ',')) {
        Some(ConfigFault::BadMembersLabel { gateway: name, members: members->0 })
    } else {
        None
    }
}

/// The gateway that a gateway container's labels declare, before it is checked:
/// the container itself is the egress, and the knobs set the rest.
pub open spec fn declared_of(
    prefix: Seq<char>,
    name: Seq<char>,
    container: Seq<char>,
    labels: Map<Seq<char>, Seq<char>>,
) -> Result<GatewayModel, ConfigFault> {
    let table = knob_of(prefix, labels, "table"@);
    match knob_fault(prefix, name, labels) {
        Some(fault) => Err(fault),
        None => Ok(
            GatewayModel {
                name,
                egress: EgressModel { interface: None, container: Some(container), next_hop: None },
                snat: flag_of(knob_of(prefix, labels, "snat"@)),
                mark: knob_of(prefix, labels, "mark"@),
                table: match table {
                    Some(t) => Some(text::number_value(t, 10, u32::MAX as nat)->Ok_0 as u32),
                    None => None,
                },
                default: flag_of(knob_of(prefix, labels, "default"@)) == Some(true),
                local_subnets: match knob_of(prefix, labels, "localSubnets"@) {
                    Some(s) => items_of(text::pieces(s, ',')),
                    None => Seq::empty(),
                },
                members: match knob_of(prefix, labels, "members"@) {
                    Some(s) => seq![selector_of(text::pieces(s, ','))],
                    None => Seq::empty(),
                },
            },
        ),
    }
}

/// Reads the gateway that a gateway container's labels declare, without
/// checking it.
pub fn declared_gateway(prefix: &str, name: String, egress_container: String, labels: &Labels) -> (r:
    Result<Gateway, ConfigError>)
    ensures
        match r {
            Ok(g) => declared_of(prefix@, name@, egress_container@, ordered::text_map(labels@)) == Ok::<
                GatewayModel,
                ConfigFault,
            >(g@),
            Err(e) => declared_of(prefix@, name@, egress_container@, ordered::text_map(labels@)) == Err::<
                GatewayModel,
                ConfigFault,
            >(e@),
        },
{
    let snat = match read_flag(knob(prefix, labels, "snat")) {
        Ok(flag) => flag,
        Err(snat) => {
            return Err(ConfigError::BadSnatLabel { gateway: name, snat });
        },
    };
    let table = match knob(prefix, labels, "table") {
        Some(t) => match parse_u32(t.as_str()) {
            Ok(n) => Some(n),
            Err(cause) => {
                return Err(ConfigError::BadTableLabel { gateway: name, table: t, cause });
            },
        },
        None => None,
    };
    let default = match read_flag(knob(prefix, labels, "default")) {
        Ok(flag) => flag == Some(true),
        Err(default) => {
            return Err(ConfigError::BadDefaultLabel { gateway: name, default });
        },
    };
    let local_subnets = match knob(prefix, labels, "localSubnets") {
        Some(s) => list_items(s.as_str()),
        None => Vec::new(),
    };
    let members = match knob(prefix, labels, "members") {
        Some(s) => {
            if !is_pair_list(s.as_str()) {
                return Err(ConfigError::BadMembersLabel { gateway: name, members: s });
            }
            vec![parse_selector_label(s.as_str())]
        },
        None => Vec::new(),
    };
    let gw = Gateway {
        name,
        egress: Egress { interface: None, container: Some(egress_container), next_hop: None },
        snat,
        mark: knob(prefix, labels, "mark"),
        table,
        default,
        local_subnets,
        members,
    };
    proof {
        let m = declared_of(prefix@, name@, egress_container@, ordered::text_map(labels@))->Ok_0;
        assert(gw@.local_subnets =~= m.local_subnets);
        assert(gw@.members =~= m.members);
        assert(gw@ == m);
    }
    Ok(gw)
}

/// The gateway that a gateway container's labels declare, or what is wrong
/// with it.
pub open spec fn discovered_of(
    prefix: Seq<char>,
    name: Seq<char>,
    container: Seq<char>,
    labels: Map<Seq<char>, Seq<char>>,
) -> Result<GatewayModel, ConfigFault> {
    match declared_of(prefix, name, container, labels) {
        Err(f) => Err(f),
        Ok(g) => match gateway_fault(g) {
            Some(f) => Err(f),
            None => Ok(g),
        },
    }
}

/// Builds a gateway from a gateway container's labels: the name, the container
/// itself as egress, and the optional `<prefix>.gateway.<field>` knobs: `snat`,
/// `mark`, `table`, `localSubnets`, `default` and `members`. A malformed knob is
/// an error, so that the gateway is dropped, never routed wrongly.
pub fn discovered_gateway(
    prefix: &str,
    name: String,
    egress_container: String,
    labels: &Labels,
) -> (r: Result<Gateway, ConfigError>)
    ensures
        match r {
            Ok(g) => discovered_of(prefix@, name@, egress_container@, ordered::text_map(labels@)) == Ok::<
                GatewayModel,
                ConfigFault,
            >(g@),
            Err(e) => discovered_of(prefix@, name@, egress_container@, ordered::text_map(labels@)) == Err::<
                GatewayModel,
                ConfigFault,
            >(e@),
        },
{
    match declared_gateway(prefix, name, egress_container, labels) {
        Err(e) => Err(e),
        Ok(gw) => match gw.validate() {
            Ok(_) => Ok(gw),
            Err(e) => Err(e),
        },
    }
}

} // verus!
