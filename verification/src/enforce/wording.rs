//! What can be relied on of the script and of the state as text, word for word.

use vstd::prelude::*;

use crate::api::v1alpha1;
use crate::api::v1alpha1::ConfigFault;
use crate::enforce;
use crate::enforce::nft;
use crate::enforce::nft::RuleSourceModel;
use crate::enforce::route;
use crate::enforce::route::IpCmdModel;
use crate::enforce::DesiredModel;
use crate::net;
use crate::net::{IpAddr, Network};
use crate::ordered;
use crate::plan::{EgressModel, GatewayPlanModel, PlanModel};
use crate::text;

verus! {

/// A name keeps its letters, digits and underscores, each in its place; every
/// other character is an underscore.
pub proof fn identifiers(name: Seq<char>, i: int)
    requires
        0 <= i < name.len(),
    ensures
        nft::identifier(name).len() == name.len(),
        'a' <= name[i] <= 'z' ==> nft::identifier(name)[i] == name[i],
        'A' <= name[i] <= 'Z' ==> nft::identifier(name)[i] == name[i],
        '0' <= name[i] <= '9' ==> nft::identifier(name)[i] == name[i],
        !('a' <= name[i] <= 'z') && !('A' <= name[i] <= 'Z') && !('0' <= name[i] <= '9')
            ==> nft::identifier(name)[i] == '_',
{
}

/// A set lists its elements where it has any, and says that they are networks
/// where they are.
pub proof fn set_definitions(name: Seq<char>, typ: Seq<char>, elems: Seq<Seq<char>>)
    ensures
        elems.len() == 0 ==> nft::set_text(name, typ, false, elems) == "    set "@ + name
            + " {\n        type "@ + typ + "\n"@ + "    }\n"@,
        elems.len() > 0 ==> nft::set_text(name, typ, false, elems) == "    set "@ + name
            + " {\n        type "@ + typ + "\n"@ + "        elements = { "@ + text::joined(
            elems,
            ", "@,
        ) + " }\n"@ + "    }\n"@,
        elems.len() > 0 ==> nft::set_text(name, typ, true, elems) == "    set "@ + name
            + " {\n        type "@ + typ + "\n"@ + "        flags interval\n"@
            + "        elements = { "@ + text::joined(elems, ", "@) + " }\n"@ + "    }\n"@,
{
    if elems.len() == 0 {
        assert(nft::set_text(name, typ, false, elems) =~= "    set "@ + name
            + " {\n        type "@ + typ + "\n"@ + "    }\n"@);
    } else {
        assert(nft::set_text(name, typ, false, elems) =~= "    set "@ + name
            + " {\n        type "@ + typ + "\n"@ + "        elements = { "@ + text::joined(
            elems,
            ", "@,
        ) + " }\n"@ + "    }\n"@);
        assert(nft::set_text(name, typ, true, elems) =~= "    set "@ + name
            + " {\n        type "@ + typ + "\n"@ + "        flags interval\n"@
            + "        elements = { "@ + text::joined(elems, ", "@) + " }\n"@ + "    }\n"@);
    }
}

/// The sets of a gateway: its IPv4 members always; the networks that stay direct
/// where there are any; and those for IPv6 only where a member has such an
/// address.
pub proof fn sets_of_a_gateway(g: RuleSourceModel)
    ensures
        ({
            let id = nft::identifier(g.name);
            let m4 = nft::set_text("degc_via_"@ + id, "ipv4_addr"@, false, g.members4);
            let l4 = nft::set_text("degc_local_"@ + id, "ipv4_addr"@, true, g.locals4);
            let m6 = nft::set_text("degc_via6_"@ + id, "ipv6_addr"@, false, g.members6);
            let l6 = nft::set_text("degc_local6_"@ + id, "ipv6_addr"@, true, g.locals6);
            let first = if g.locals4.len() == 0 {
                m4
            } else {
                m4 + l4
            };
            let second = if g.members6.len() == 0 {
                Seq::empty()
            } else if g.locals6.len() == 0 {
                m6
            } else {
                m6 + l6
            };
            nft::gateway_sets(g) == first + second
        }),
{
    let id = nft::identifier(g.name);
    let m4 = nft::set_text("degc_via_"@ + id, "ipv4_addr"@, false, g.members4);
    let m6 = nft::set_text("degc_via6_"@ + id, "ipv6_addr"@, false, g.members6);
    assert(m4 + Seq::empty() =~= m4);
    assert(m6 + Seq::empty() =~= m6);
}

/// What a member sends is marked, unless it goes to a network that stays direct.
pub proof fn marking(g: RuleSourceModel)
    ensures
        ({
            let id = nft::identifier(g.name);
            &&& g.locals4.len() > 0 ==> nft::mark_rule(g) == "        ip saddr @"@ + ("degc_via_"@
                + id) + (" "@ + "ip daddr"@ + " != @"@ + ("degc_local_"@ + id))
                + " meta mark set "@ + g.mark + "\n"@
            &&& g.locals4.len() == 0 ==> nft::mark_rule(g) == "        ip saddr @"@ + ("degc_via_"@
                + id) + " meta mark set "@ + g.mark + "\n"@
        }),
{
    let id = nft::identifier(g.name);
    if g.locals4.len() == 0 {
        assert("        ip saddr @"@ + ("degc_via_"@ + id) + Seq::empty() =~= "        ip saddr @"@
            + ("degc_via_"@ + id));
    }
}

/// Nothing is masqueraded unless that is asked for and the egress is there; onto
/// an interface only what leaves by it is.
pub proof fn masquerading(g: RuleSourceModel)
    ensures
        !g.snat ==> nft::snat_rule(g) == Seq::<char>::empty(),
        g.egress is Unavailable ==> nft::snat_rule(g) == Seq::<char>::empty(),
        g.snat && g.egress is Interface ==> nft::snat_rule(g) == "        meta mark "@ + g.mark
            + " oifname \""@ + g.egress->Interface_0 + "\" masquerade\n"@,
        g.snat && g.egress is NextHop ==> nft::snat_rule(g) == "        meta mark "@ + g.mark
            + " masquerade\n"@,
{
}

/// Marked traffic is dropped on any way out but the interface, and altogether
/// where the egress is unavailable; what a member sends over IPv6 is dropped,
/// unless it goes to a network that stays direct.
pub proof fn dropping(g: RuleSourceModel)
    ensures
        ({
            let id = nft::identifier(g.name);
            let six = if g.members6.len() == 0 {
                Seq::empty()
            } else if g.locals6.len() == 0 {
                "        ip6 saddr @"@ + ("degc_via6_"@ + id) + " drop\n"@
            } else {
                "        ip6 saddr @"@ + ("degc_via6_"@ + id) + (" "@ + "ip6 daddr"@ + " != @"@ + (
                "degc_local6_"@ + id)) + " drop\n"@
            };
            &&& g.egress is Interface ==> nft::kill_rules(g) == six + ("        meta mark "@
                + g.mark + " oifname != \""@ + g.egress->Interface_0 + "\" drop\n"@)
            &&& g.egress is Unavailable ==> nft::kill_rules(g) == six + ("        meta mark "@
                + g.mark + " drop   # egress unavailable: "@ + g.egress->Unavailable_0 + "\n"@)
            &&& g.egress is NextHop ==> nft::kill_rules(g) == six
        }),
{
    let id = nft::identifier(g.name);
    if g.members6.len() > 0 && g.locals6.len() == 0 {
        assert("        ip6 saddr @"@ + ("degc_via6_"@ + id) + Seq::empty()
            =~= "        ip6 saddr @"@ + ("degc_via6_"@ + id));
    }
    if g.egress is NextHop {
        assert(nft::kill_rules(g) =~= nft::kill6_rule(g));
    }
}

/// One more gateway adds its sets and its rules after those of the others.
pub proof fn one_more_source(gs: Seq<RuleSourceModel>, g: RuleSourceModel)
    ensures
        nft::all_sets(gs.push(g)) == nft::all_sets(gs) + nft::gateway_sets(g),
        nft::all_marks(gs.push(g)) == nft::all_marks(gs) + nft::mark_rule(g),
        nft::all_snats(gs.push(g)) == nft::all_snats(gs) + nft::snat_rule(g),
        nft::all_kills(gs.push(g)) == nft::all_kills(gs) + nft::kill_rules(g),
        nft::all_sets(Seq::empty()) == Seq::<char>::empty(),
        nft::all_marks(Seq::empty()) == Seq::<char>::empty(),
        nft::all_snats(Seq::empty()) == Seq::<char>::empty(),
        nft::all_kills(Seq::empty()) == Seq::<char>::empty(),
{
    assert(gs.push(g).drop_last() =~= gs);
}

/// The script: the table is replaced as a whole; marking comes before routing,
/// masquerading after it, and what is forwarded passes the kill switch. The chain
/// that masquerades is there only where something does.
pub proof fn layout(gs: Seq<RuleSourceModel>)
    ensures
        ({
            let head = "add table inet degc\ndelete table inet degc\ntable inet degc {\n"@;
            let mark =
                "    chain degc_mark {\n        type filter hook prerouting priority mangle; policy accept;\n"@
                + nft::all_marks(gs) + "    }\n"@;
            let snat =
                "    chain degc_snat {\n        type nat hook postrouting priority srcnat; policy accept;\n"@
                + nft::all_snats(gs) + "    }\n"@;
            let kill =
                "    chain degc_killswitch {\n        type filter hook forward priority filter; policy accept;\n"@
                + nft::all_kills(gs) + "    }\n}\n"@;
            &&& nft::all_snats(gs).len() > 0 ==> nft::script_of(gs) == head + nft::all_sets(gs)
                + mark + snat + kill
            &&& nft::all_snats(gs).len() == 0 ==> nft::script_of(gs) == head + nft::all_sets(gs)
                + mark + kill
        }),
{
    let head = "add table inet degc\ndelete table inet degc\ntable inet degc {\n"@;
    let mark =
        "    chain degc_mark {\n        type filter hook prerouting priority mangle; policy accept;\n"@
        + nft::all_marks(gs) + "    }\n"@;
    let snat =
        "    chain degc_snat {\n        type nat hook postrouting priority srcnat; policy accept;\n"@
        + nft::all_snats(gs) + "    }\n"@;
    let kill =
        "    chain degc_killswitch {\n        type filter hook forward priority filter; policy accept;\n"@
        + nft::all_kills(gs) + "    }\n}\n"@;
    if nft::all_snats(gs).len() > 0 {
        assert(nft::script_of(gs) =~= head + nft::all_sets(gs) + mark + snat + kill);
    } else {
        assert(nft::script_of(gs) =~= head + nft::all_sets(gs) + mark + kill);
    }
}

/// One more address is written in its family, after the others.
pub proof fn one_more_address(ips: Seq<IpAddr>, ip: IpAddr)
    ensures
        nft::member_texts(Seq::empty(), true) == Seq::<Seq<char>>::empty(),
        nft::member_texts(Seq::empty(), false) == Seq::<Seq<char>>::empty(),
        ip is V4 ==> nft::member_texts(ips.push(ip), true) == nft::member_texts(ips, true).push(
            net::ip_text(ip),
        ) && nft::member_texts(ips.push(ip), false) == nft::member_texts(ips, false),
        ip is V6 ==> nft::member_texts(ips.push(ip), false) == nft::member_texts(ips, false).push(
            net::ip_text(ip),
        ) && nft::member_texts(ips.push(ip), true) == nft::member_texts(ips, true),
{
    assert(ips.push(ip).drop_last() =~= ips);
}

/// One more network is written in its family, after the others; a text that
/// names none is left out.
pub proof fn one_more_network(
    networks: Seq<Network>,
    n: Network,
    subnets: Seq<Seq<char>>,
    s: Seq<char>,
)
    ensures
        nft::network_texts(Seq::empty(), true) == Seq::<Seq<char>>::empty(),
        nft::network_texts(Seq::empty(), false) == Seq::<Seq<char>>::empty(),
        n is V4 ==> nft::network_texts(networks.push(n), true) == nft::network_texts(
            networks,
            true,
        ).push(net::network_text(n)) && nft::network_texts(networks.push(n), false)
            == nft::network_texts(networks, false),
        n is V6 ==> nft::network_texts(networks.push(n), false) == nft::network_texts(
            networks,
            false,
        ).push(net::network_text(n)) && nft::network_texts(networks.push(n), true)
            == nft::network_texts(networks, true),
        nft::networks_named(Seq::empty()) == Seq::<Network>::empty(),
        net::network_named(s) is Some ==> nft::networks_named(subnets.push(s))
            == nft::networks_named(subnets).push(net::network_named(s)->0),
        net::network_named(s) is None ==> nft::networks_named(subnets.push(s))
            == nft::networks_named(subnets),
{
    assert(networks.push(n).drop_last() =~= networks);
    assert(subnets.push(s).drop_last() =~= subnets);
}

/// One more planned gateway: its rules are made from its mark, its name, its
/// members in order, the networks that stay direct, whether it masquerades and
/// its egress. A mark that cannot be read is reported, unless an earlier one was.
pub proof fn one_more_planned_gateway(gps: Seq<GatewayPlanModel>, gp: GatewayPlanModel)
    ensures
        nft::sources_of(Seq::empty()) == Ok::<Seq<RuleSourceModel>, ConfigFault>(Seq::empty()),
        ({
            let before = nft::sources_of(gps);
            let after = nft::sources_of(gps.push(gp));
            let mark = v1alpha1::mark_of(gp.gateway);
            let ips = ordered::sorted_ips(gp.members);
            let direct = nft::networks_named(v1alpha1::local_subnets_of(gp.gateway));
            &&& before is Err ==> after == before
            &&& before is Ok && mark is None ==> after == Err::<Seq<RuleSourceModel>, ConfigFault>(
                ConfigFault::BadMark { gateway: gp.gateway.name, mark: gp.gateway.mark->0 },
            )
            &&& before is Ok && mark is Some ==> after is Ok && {
                let g = after->Ok_0.last();
                &&& after->Ok_0 == before->Ok_0.push(g)
                &&& g.mark == text::hex_text(mark->0 as nat)
                &&& g.name == gp.gateway.name
                &&& g.members4 == nft::member_texts(ips, true)
                &&& g.members6 == nft::member_texts(ips, false)
                &&& g.locals4 == nft::network_texts(direct, true)
                &&& g.locals6 == nft::network_texts(direct, false)
                &&& g.snat == v1alpha1::snat_of(gp.gateway)
                &&& g.egress == gp.egress
            }
        }),
{
    assert(gps.push(gp).drop_last() =~= gps);
}

/// The state for a plan: a warning for each container that asks for a gateway
/// that is not known, and for each gateway its mark and its table.
pub proof fn state_of_a_plan(plan: PlanModel, i: int, k: int)
    ensures
        ({
            let d = enforce::desired_of(plan);
            &&& d.warnings.len() == plan.unresolved.len()
            &&& 0 <= i < plan.unresolved.len() ==> d.warnings[i] == "container "@
                + text::debug_text(plan.unresolved[i].0) + " opted into gateway "@
                + text::debug_text(plan.unresolved[i].1) + " — no such gateway (not routed)"@
            &&& d.guards.len() == plan.gateways.len()
            &&& 0 <= k < plan.gateways.len() ==> d.guards[k] == (
                text::hex_text(v1alpha1::mark_of(plan.gateways[k].gateway)->0 as nat),
                v1alpha1::table_of(plan.gateways[k].gateway),
            )
            &&& nft::sources_of(plan.gateways) is Ok ==> d.nft == nft::script_of(
                nft::sources_of(plan.gateways)->Ok_0,
            )
            &&& route::build_of(plan.gateways) == Ok::<Seq<IpCmdModel>, ConfigFault>(d.ip)
                || route::build_of(plan.gateways) is Err
            &&& enforce::planned(plan.gateways).len() == plan.gateways.len()
            &&& 0 <= k < plan.gateways.len() ==> enforce::planned(plan.gateways)[k]
                == plan.gateways[k].gateway
        }),
{
}

/// The state as text, part by part: one line for each warning and for each
/// command, which says where it may fail.
pub proof fn state_as_text(
    d: DesiredModel,
    warnings: Seq<Seq<char>>,
    w: Seq<char>,
    ip: Seq<IpCmdModel>,
    c: IpCmdModel,
)
    ensures
        enforce::desired_text(d) == "# degc desired host state\n"@ + enforce::warning_lines(
            d.warnings,
        ) + "# --- nftables (nft -f -) ---\n"@ + d.nft + "# --- routing (ip) ---\n"@
            + enforce::cmd_lines(d.ip),
        enforce::warning_lines(Seq::empty()) == Seq::<char>::empty(),
        enforce::warning_lines(warnings.push(w)) == enforce::warning_lines(warnings)
            + "# WARNING: "@ + w + "\n"@,
        enforce::cmd_lines(Seq::empty()) == Seq::<char>::empty(),
        c.ignore_fail ==> enforce::cmd_lines(ip.push(c)) == enforce::cmd_lines(ip) + ("ip "@
            + text::joined(c.args, " "@) + "    # ok if absent"@ + "\n"@),
        !c.ignore_fail ==> enforce::cmd_lines(ip.push(c)) == enforce::cmd_lines(ip) + ("ip "@
            + text::joined(c.args, " "@) + "\n"@),
{
    assert(warnings.push(w).drop_last() =~= warnings);
    assert(ip.push(c).drop_last() =~= ip);
    let line = "ip "@ + text::joined(c.args, " "@);
    assert(line + Seq::empty() =~= line);
}

} // verus!
