//! The nftables script for the table `inet degc`. One transaction adds the
//! table, deletes it and defines it again, and nothing outside it is touched.
//!
//! The table has a chain that marks a member's traffic, one that masquerades
//! onto an egress where that is asked for, and one, the kill switch, that drops
//! marked traffic on any way out but the egress.

use vstd::prelude::*;

use crate::api::v1alpha1;
use crate::api::v1alpha1::{ConfigError, ConfigFault, GatewayModel};
use crate::net;
use crate::net::{IpAddr, Network};
use crate::ordered;
use crate::plan::{Egress, EgressModel, GatewayPlan, GatewayPlanModel, Plan};
use crate::text;
use crate::text::{chars_of, hex, join};

verus! {

/// Removes the table, whether or not it is there.
pub const TEARDOWN_SCRIPT: &'static str = "add table inet degc\ndelete table inet degc\n";

// ---------------------------------------------------------------------------
// Identifiers

/// Whether a character may stand in the name of a set.
pub open spec fn identifier_char(c: char) -> bool {
    ('a' <= c && c <= 'z') || ('A' <= c && c <= 'Z') || ('0' <= c && c <= '9') || c == '_'
}

/// A name with `_` in place of each character that may not stand in the name of
/// a set.
pub open spec fn identifier(name: Seq<char>) -> Seq<char> {
    name.map_values(
        |c: char|
            if identifier_char(c) {
                c
            } else {
                '_'
            },
    )
}

/// Puts `_` in place of each character that may not stand in the name of a set.
pub fn sanitize(name: &str) -> (r: String)
    ensures
        r@ == identifier(name@),
{
    let v = chars_of(name);
    let mut r = String::new();
    for i in 0..v.len()
        invariant
            v@ == name@,
            r@ == identifier(name@).take(i as int),
    {
        let c = v[i];
        if ('a' <= c && c <= 'z') || ('A' <= c && c <= 'Z') || ('0' <= c && c <= '9') || c == '_' {
            r.push(c);
        } else {
            r.push('_');
        }
    }
    assert(identifier(name@).take(name@.len() as int) == identifier(name@));
    r
}

// ---------------------------------------------------------------------------
// Sets

/// The definition of a set. Without elements the line that lists them is left
/// out.
pub open spec fn set_text(
    name: Seq<char>,
    typ: Seq<char>,
    interval: bool,
    elems: Seq<Seq<char>>,
) -> Seq<char> {
    "    set "@ + name + " {\n        type "@ + typ + "\n"@ + (if interval {
        "        flags interval\n"@
    } else {
        Seq::empty()
    }) + (if elems.len() > 0 {
        "        elements = { "@ + text::joined(elems, ", "@) + " }\n"@
    } else {
        Seq::empty()
    }) + "    }\n"@
}

/// Writes the definition of a set.
pub fn emit_set(name: &str, typ: &str, interval: bool, elems: &Vec<String>) -> (r: String)
    ensures
        r@ == set_text(name@, typ@, interval, text::texts(elems@)),
{
    let flags = if interval {
        "        flags interval\n".to_owned()
    } else {
        String::new()
    };
    let listed = if elems.len() > 0 {
        "        elements = { ".to_owned().concat(join(elems, ", ").as_str()).concat(" }\n")
    } else {
        String::new()
    };
    "    set ".to_owned().concat(name).concat(" {\n        type ").concat(typ).concat("\n").concat(
        flags.as_str(),
    ).concat(listed.as_str()).concat("    }\n")
}

/// The set of excluded destinations, if there are any.
pub open spec fn exclusion_set(
    name: Seq<char>,
    typ: Seq<char>,
    cidrs: Seq<Seq<char>>,
) -> Seq<char> {
    if cidrs.len() == 0 {
        Seq::empty()
    } else {
        set_text(name, typ, true, cidrs)
    }
}

/// The clause that excludes destinations, if there are any.
pub open spec fn exclusion(
    name: Seq<char>,
    daddr: Seq<char>,
    cidrs: Seq<Seq<char>>,
) -> Seq<char> {
    if cidrs.len() == 0 {
        Seq::empty()
    } else {
        " "@ + daddr + " != @"@ + name
    }
}

/// Writes the set of excluded destinations and the clause that excludes them.
pub fn excl_clause(name: &str, typ: &str, daddr: &str, cidrs: &Vec<String>) -> (r: (String, String))
    ensures
        r.0@ == exclusion_set(name@, typ@, text::texts(cidrs@)),
        r.1@ == exclusion(name@, daddr@, text::texts(cidrs@)),
{
    if cidrs.len() == 0 {
        (String::new(), String::new())
    } else {
        (
            emit_set(name, typ, true, cidrs),
            " ".to_owned().concat(daddr).concat(" != @").concat(name),
        )
    }
}

// ---------------------------------------------------------------------------
// The rules of one gateway

/// What the rules of one gateway are made from.
#[derive(Debug, PartialEq, Eq)]
pub struct RuleSource {
    /// The mark, as text.
    pub mark: String,
    /// The gateway's name.
    pub name: String,
    /// The IPv4 addresses of the members.
    pub members4: Vec<String>,
    /// The IPv6 addresses of the members.
    pub members6: Vec<String>,
    /// The IPv4 networks that stay direct.
    pub locals4: Vec<String>,
    /// The IPv6 networks that stay direct.
    pub locals6: Vec<String>,
    /// Whether to masquerade.
    pub snat: bool,
    /// The egress.
    pub egress: Egress,
}

/// The model of a [`RuleSource`].
pub struct RuleSourceModel {
    /// See [`RuleSource::mark`].
    pub mark: Seq<char>,
    /// See [`RuleSource::name`].
    pub name: Seq<char>,
    /// See [`RuleSource::members4`].
    pub members4: Seq<Seq<char>>,
    /// See [`RuleSource::members6`].
    pub members6: Seq<Seq<char>>,
    /// See [`RuleSource::locals4`].
    pub locals4: Seq<Seq<char>>,
    /// See [`RuleSource::locals6`].
    pub locals6: Seq<Seq<char>>,
    /// See [`RuleSource::snat`].
    pub snat: bool,
    /// See [`RuleSource::egress`].
    pub egress: EgressModel,
}

impl View for RuleSource {
    type V = RuleSourceModel;

    open spec fn view(&self) -> RuleSourceModel {
        RuleSourceModel {
            mark: self.mark@,
            name: self.name@,
            members4: text::texts(self.members4@),
            members6: text::texts(self.members6@),
            locals4: text::texts(self.locals4@),
            locals6: text::texts(self.locals6@),
            snat: self.snat,
            egress: self.egress@,
        }
    }
}

/// The name of the set of a gateway's IPv4 members.
pub open spec fn via_name(g: RuleSourceModel) -> Seq<char> {
    "degc_via_"@ + identifier(g.name)
}

/// The name of the set of a gateway's IPv6 members.
pub open spec fn via6_name(g: RuleSourceModel) -> Seq<char> {
    "degc_via6_"@ + identifier(g.name)
}

/// The name of the set of the IPv4 networks that stay direct.
pub open spec fn local_name(g: RuleSourceModel) -> Seq<char> {
    "degc_local_"@ + identifier(g.name)
}

/// The name of the set of the IPv6 networks that stay direct.
pub open spec fn local6_name(g: RuleSourceModel) -> Seq<char> {
    "degc_local6_"@ + identifier(g.name)
}

/// The sets of one gateway. Those for IPv6 are there only where a member has an
/// IPv6 address.
pub open spec fn gateway_sets(g: RuleSourceModel) -> Seq<char> {
    set_text(via_name(g), "ipv4_addr"@, false, g.members4) + exclusion_set(
        local_name(g),
        "ipv4_addr"@,
        g.locals4,
    ) + (if g.members6.len() > 0 {
        set_text(via6_name(g), "ipv6_addr"@, false, g.members6) + exclusion_set(
            local6_name(g),
            "ipv6_addr"@,
            g.locals6,
        )
    } else {
        Seq::empty()
    })
}

/// The rule that marks what a member sends anywhere but to a network that stays
/// direct.
pub open spec fn mark_rule(g: RuleSourceModel) -> Seq<char> {
    "        ip saddr @"@ + via_name(g) + exclusion(local_name(g), "ip daddr"@, g.locals4)
        + " meta mark set "@ + g.mark + "\n"@
}

/// The rule that masquerades onto the egress, where that is asked for and there
/// is one.
pub open spec fn snat_rule(g: RuleSourceModel) -> Seq<char> {
    if g.snat {
        match g.egress {
            EgressModel::Interface(name) => "        meta mark "@ + g.mark + " oifname \""@ + name
                + "\" masquerade\n"@,
            EgressModel::NextHop(_) => "        meta mark "@ + g.mark + " masquerade\n"@,
            EgressModel::Unavailable(_) => Seq::empty(),
        }
    } else {
        Seq::empty()
    }
}

/// The rule that drops what a member sends over IPv6, which is not routed.
pub open spec fn kill6_rule(g: RuleSourceModel) -> Seq<char> {
    if g.members6.len() > 0 {
        "        ip6 saddr @"@ + via6_name(g) + exclusion(local6_name(g), "ip6 daddr"@, g.locals6)
            + " drop\n"@
    } else {
        Seq::empty()
    }
}

/// The rule that drops marked traffic on any way out but the egress. A next hop
/// is not known by its interface; there the blackhole in the routing table and
/// the gateway container itself are the guard.
pub open spec fn kill4_rule(g: RuleSourceModel) -> Seq<char> {
    match g.egress {
        EgressModel::Interface(name) => "        meta mark "@ + g.mark + " oifname != \""@ + name
            + "\" drop\n"@,
        EgressModel::Unavailable(why) => "        meta mark "@ + g.mark
            + " drop   # egress unavailable: "@ + why + "\n"@,
        EgressModel::NextHop(_) => Seq::empty(),
    }
}

/// The kill switch of one gateway.
pub open spec fn kill_rules(g: RuleSourceModel) -> Seq<char> {
    kill6_rule(g) + kill4_rule(g)
}

/// The texts that one gateway adds to the script.
#[derive(Debug, PartialEq, Eq)]
pub struct Rules {
    /// Its sets.
    pub sets: String,
    /// What marks its members' traffic.
    pub mark: String,
    /// What masquerades.
    pub snat: String,
    /// Its kill switch.
    pub kill: String,
}

/// Writes what one gateway adds to the script.
pub fn gateway_rules(g: &RuleSource) -> (r: Rules)
    ensures
        r.sets@ == gateway_sets(g@),
        r.mark@ == mark_rule(g@),
        r.snat@ == snat_rule(g@),
        r.kill@ == kill_rules(g@),
{
    let id = sanitize(g.name.as_str());
    let via_set = "degc_via_".to_owned().concat(id.as_str());
    let local_set = "degc_local_".to_owned().concat(id.as_str());
    let (locals, excl) = excl_clause(local_set.as_str(), "ipv4_addr", "ip daddr", &g.locals4);
    let sets4 = emit_set(via_set.as_str(), "ipv4_addr", false, &g.members4).concat(locals.as_str());
    let mark = "        ip saddr @".to_owned().concat(via_set.as_str()).concat(
        excl.as_str(),
    ).concat(" meta mark set ").concat(g.mark.as_str()).concat("\n");
    let (sets6, kill6) = if g.members6.len() > 0 {
        let via6_set = "degc_via6_".to_owned().concat(id.as_str());
        let local6_set = "degc_local6_".to_owned().concat(id.as_str());
        let (locals6, excl6) = excl_clause(
            local6_set.as_str(),
            "ipv6_addr",
            "ip6 daddr",
            &g.locals6,
        );
        (
            emit_set(via6_set.as_str(), "ipv6_addr", false, &g.members6).concat(locals6.as_str()),
            "        ip6 saddr @".to_owned().concat(via6_set.as_str()).concat(
                excl6.as_str(),
            ).concat(" drop\n"),
        )
    } else {
        (String::new(), String::new())
    };
    let snat = if g.snat {
        match &g.egress {
            Egress::Interface(name) => "        meta mark ".to_owned().concat(
                g.mark.as_str(),
            ).concat(" oifname \"").concat(name.as_str()).concat("\" masquerade\n"),
            Egress::NextHop(_) => "        meta mark ".to_owned().concat(g.mark.as_str()).concat(
                " masquerade\n",
            ),
            Egress::Unavailable(_) => String::new(),
        }
    } else {
        String::new()
    };
    let kill4 = match &g.egress {
        Egress::Interface(name) => "        meta mark ".to_owned().concat(g.mark.as_str()).concat(
            " oifname != \"",
        ).concat(name.as_str()).concat("\" drop\n"),
        Egress::Unavailable(why) => "        meta mark ".to_owned().concat(g.mark.as_str()).concat(
            " drop   # egress unavailable: ",
        ).concat(why.as_str()).concat("\n"),
        Egress::NextHop(_) => String::new(),
    };
    Rules { sets: sets4.concat(sets6.as_str()), mark, snat, kill: kill6.concat(kill4.as_str()) }
}

// ---------------------------------------------------------------------------
// The script

/// What all gateways add, one after the other.
pub open spec fn gathered(
    gs: Seq<RuleSourceModel>,
    one: spec_fn(RuleSourceModel) -> Seq<char>,
) -> Seq<char>
    decreases gs.len(),
{
    if gs.len() == 0 {
        Seq::empty()
    } else {
        gathered(gs.drop_last(), one) + one(gs.last())
    }
}

/// The sets of all gateways.
pub open spec fn all_sets(gs: Seq<RuleSourceModel>) -> Seq<char> {
    gathered(gs, |g: RuleSourceModel| gateway_sets(g))
}

/// The rules that mark.
pub open spec fn all_marks(gs: Seq<RuleSourceModel>) -> Seq<char> {
    gathered(gs, |g: RuleSourceModel| mark_rule(g))
}

/// The rules that masquerade.
pub open spec fn all_snats(gs: Seq<RuleSourceModel>) -> Seq<char> {
    gathered(gs, |g: RuleSourceModel| snat_rule(g))
}

/// The kill switch.
pub open spec fn all_kills(gs: Seq<RuleSourceModel>) -> Seq<char> {
    gathered(gs, |g: RuleSourceModel| kill_rules(g))
}

/// The chain that masquerades, if anything does.
pub open spec fn snat_chain(rules: Seq<char>) -> Seq<char> {
    if rules.len() == 0 {
        Seq::empty()
    } else {
        "    chain degc_snat {\n        type nat hook postrouting priority srcnat; policy accept;\n"@
            + rules + "    }\n"@
    }
}

/// The whole script. It deletes the table and does not flush it: a flush would
/// leave the elements of its sets.
pub open spec fn script_of(gs: Seq<RuleSourceModel>) -> Seq<char> {
    "add table inet degc\ndelete table inet degc\ntable inet degc {\n"@ + all_sets(gs)
        + "    chain degc_mark {\n        type filter hook prerouting priority mangle; policy accept;\n"@
        + all_marks(gs) + "    }\n"@ + snat_chain(all_snats(gs))
        + "    chain degc_killswitch {\n        type filter hook forward priority filter; policy accept;\n"@
        + all_kills(gs) + "    }\n}\n"@
}

/// The models of a list of sources.
pub open spec fn source_models(v: Seq<RuleSource>) -> Seq<RuleSourceModel> {
    v.map_values(|g: RuleSource| g@)
}

/// Writes the script for the gateways.
pub fn write_script(gateways: &Vec<RuleSource>) -> (r: String)
    ensures
        r@ == script_of(source_models(gateways@)),
{
    let ghost gs = source_models(gateways@);
    let mut sets = String::new();
    let mut marks = String::new();
    let mut snats = String::new();
    let mut kills = String::new();
    for i in 0..gateways.len()
        invariant
            gs == source_models(gateways@),
            sets@ == all_sets(gs.take(i as int)),
            marks@ == all_marks(gs.take(i as int)),
            snats@ == all_snats(gs.take(i as int)),
            kills@ == all_kills(gs.take(i as int)),
    {
        assert(gs.take(i + 1).drop_last() == gs.take(i as int));
        assert(gs.take(i + 1).last() == gateways@[i as int]@);
        let rules = gateway_rules(&gateways[i]);
        sets.append(rules.sets.as_str());
        marks.append(rules.mark.as_str());
        snats.append(rules.snat.as_str());
        kills.append(rules.kill.as_str());
    }
    assert(gs.take(gs.len() as int) == gs);
    let chain = if snats.as_str().is_empty() {
        String::new()
    } else {
        "    chain degc_snat {\n        type nat hook postrouting priority srcnat; policy accept;\n".to_owned().concat(
            snats.as_str(),
        ).concat("    }\n")
    };
    let mut out =
        "add table inet degc\ndelete table inet degc\ntable inet degc {\n".to_owned();
    out.append(sets.as_str());
    out.append(
        "    chain degc_mark {\n        type filter hook prerouting priority mangle; policy accept;\n",
    );
    out.append(marks.as_str());
    out.append("    }\n");
    out.append(chain.as_str());
    out.append(
        "    chain degc_killswitch {\n        type filter hook forward priority filter; policy accept;\n",
    );
    out.append(kills.as_str());
    out.append("    }\n}\n");
    out
}

// ---------------------------------------------------------------------------
// From a plan to the rules

/// The texts of the addresses of one family, in order.
pub open spec fn member_texts(ips: Seq<IpAddr>, v4: bool) -> Seq<Seq<char>>
    decreases ips.len(),
{
    if ips.len() == 0 {
        Seq::empty()
    } else if (ips.last() is V4) == v4 {
        member_texts(ips.drop_last(), v4).push(net::ip_text(ips.last()))
    } else {
        member_texts(ips.drop_last(), v4)
    }
}

/// Writes the addresses of one family.
fn write_members(ips: &Vec<IpAddr>, v4: bool) -> (r: Vec<String>)
    ensures
        text::texts(r@) == member_texts(ips@, v4),
{
    let mut r: Vec<String> = Vec::new();
    for i in 0..ips.len()
        invariant
            text::texts(r@) == member_texts(ips@.take(i as int), v4),
    {
        assert(ips@.take(i + 1).drop_last() == ips@.take(i as int));
        if ips[i].is_ipv4() == v4 {
            let ghost before = text::texts(r@);
            let one = ips[i].to_text();
            r.push(one);
            assert(text::texts(r@) == before.push(one@));
        }
    }
    assert(ips@.take(ips@.len() as int) == ips@);
    r
}

/// The networks that a list of texts stands for; a text that stands for none is
/// left out.
pub open spec fn networks_named(subnets: Seq<Seq<char>>) -> Seq<Network>
    decreases subnets.len(),
{
    if subnets.len() == 0 {
        Seq::empty()
    } else {
        match net::network_named(subnets.last()) {
            Some(n) => networks_named(subnets.drop_last()).push(n),
            None => networks_named(subnets.drop_last()),
        }
    }
}

/// Reads the networks that a list of texts stands for.
fn read_networks(subnets: &Vec<String>) -> (r: Vec<Network>)
    ensures
        r@ == networks_named(text::texts(subnets@)),
{
    let ghost ts = text::texts(subnets@);
    let mut r: Vec<Network> = Vec::new();
    for i in 0..subnets.len()
        invariant
            ts == text::texts(subnets@),
            r@ == networks_named(ts.take(i as int)),
    {
        assert(ts.take(i + 1).drop_last() == ts.take(i as int));
        assert(ts.take(i + 1).last() == subnets@[i as int]@);
        if let Ok(n) = Network::parse(subnets[i].as_str()) {
            r.push(n);
        }
    }
    assert(ts.take(ts.len() as int) == ts);
    r
}

/// The texts of the networks of one family, in order.
pub open spec fn network_texts(networks: Seq<Network>, v4: bool) -> Seq<Seq<char>>
    decreases networks.len(),
{
    if networks.len() == 0 {
        Seq::empty()
    } else if (networks.last() is V4) == v4 {
        network_texts(networks.drop_last(), v4).push(net::network_text(networks.last()))
    } else {
        network_texts(networks.drop_last(), v4)
    }
}

/// Writes the networks of one family.
fn write_networks(networks: &Vec<Network>, v4: bool) -> (r: Vec<String>)
    ensures
        text::texts(r@) == network_texts(networks@, v4),
{
    let mut r: Vec<String> = Vec::new();
    for i in 0..networks.len()
        invariant
            text::texts(r@) == network_texts(networks@.take(i as int), v4),
    {
        assert(networks@.take(i + 1).drop_last() == networks@.take(i as int));
        if networks[i].is_ipv4() == v4 {
            let ghost before = text::texts(r@);
            let one = networks[i].to_text();
            r.push(one);
            assert(text::texts(r@) == before.push(one@));
        }
    }
    assert(networks@.take(networks@.len() as int) == networks@);
    r
}

/// What the rules of a planned gateway are made from, given its mark and the
/// networks that stay direct.
pub open spec fn source_with(
    gp: GatewayPlanModel,
    mark: u32,
    locals: Seq<Network>,
) -> RuleSourceModel {
    RuleSourceModel {
        mark: text::hex_text(mark as nat),
        name: gp.gateway.name,
        members4: member_texts(ordered::sorted_ips(gp.members), true),
        members6: member_texts(ordered::sorted_ips(gp.members), false),
        locals4: network_texts(locals, true),
        locals6: network_texts(locals, false),
        snat: v1alpha1::snat_of(gp.gateway),
        egress: gp.egress,
    }
}

/// The networks that stay direct, of a gateway.
pub open spec fn locals_of(g: GatewayModel) -> Seq<Network> {
    networks_named(v1alpha1::local_subnets_of(g))
}

/// What the rules of a plan's gateways are made from; or the first mark that
/// cannot be read.
pub open spec fn sources_of(
    gps: Seq<GatewayPlanModel>,
) -> Result<Seq<RuleSourceModel>, ConfigFault>
    decreases gps.len(),
{
    if gps.len() == 0 {
        Ok(Seq::empty())
    } else {
        let gp = gps.last();
        match sources_of(gps.drop_last()) {
            Err(f) => Err(f),
            Ok(before) => match v1alpha1::mark_of(gp.gateway) {
                None => Err(
                    ConfigFault::BadMark { gateway: gp.gateway.name, mark: gp.gateway.mark->0 },
                ),
                Some(mark) => Ok(before.push(source_with(gp, mark, locals_of(gp.gateway)))),
            },
        }
    }
}

/// Gathers what the rules of a planned gateway are made from, given its mark
/// and the networks that stay direct.
pub fn rule_source(gp: &GatewayPlan, mark: u32, locals: &Vec<Network>) -> (r: RuleSource)
    ensures
        r@ == source_with(gp@, mark, locals@),
{
    RuleSource {
        mark: hex(mark),
        name: gp.gateway.name.clone(),
        members4: write_members(gp.members.elements(), true),
        members6: write_members(gp.members.elements(), false),
        locals4: write_networks(locals, true),
        locals6: write_networks(locals, false),
        snat: gp.gateway.snat_enabled(),
        egress: gp.egress.clone(),
    }
}

/// A mark that cannot be read is the fault of the whole plan.
proof fn lemma_sources_stop(gps: Seq<GatewayPlanModel>, n: int)
    requires
        0 <= n <= gps.len(),
        sources_of(gps.take(n)) is Err,
    ensures
        sources_of(gps) == sources_of(gps.take(n)),
    decreases gps.len() - n,
{
    if n < gps.len() {
        assert(gps.take(n + 1).drop_last() == gps.take(n));
        lemma_sources_stop(gps, n + 1);
    } else {
        assert(gps.take(n) == gps);
    }
}

/// Builds the script for a whole plan.
pub fn build_script(plan: &Plan) -> (r: Result<String, ConfigError>)
    ensures
        match (r, sources_of(plan@.gateways)) {
            (Ok(s), Ok(sources)) => s@ == script_of(sources),
            (Err(e), Err(fault)) => e@ == fault,
            _ => false,
        },
{
    let ghost gps = plan@.gateways;
    let mut sources: Vec<RuleSource> = Vec::new();
    for i in 0..plan.gateways.len()
        invariant
            gps == plan@.gateways,
            sources_of(gps.take(i as int)) is Ok,
            sources_of(gps.take(i as int))->Ok_0 == source_models(sources@),
    {
        let gp = &plan.gateways[i];
        assert(gps.take(i + 1).drop_last() == gps.take(i as int));
        assert(gps.take(i + 1).last() == gp@);
        let mark = match gp.gateway.mark_value() {
            Ok(m) => m,
            Err(e) => {
                proof {
                    lemma_sources_stop(gps, i + 1);
                }
                return Err(e);
            },
        };
        let locals = read_networks(&gp.gateway.local_subnets_effective());
        let one = rule_source(gp, mark, &locals);
        let ghost before = source_models(sources@);
        sources.push(one);
        assert(source_models(sources@) == before.push(one@));
    }
    assert(gps.take(gps.len() as int) == gps);
    Ok(write_script(&sources))
}

} // verus!
