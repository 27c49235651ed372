//! What holds of every state and of every run.

use vstd::prelude::*;

use crate::api::v1alpha1;
use crate::api::v1alpha1::GatewayModel;
use crate::docker::TargetModel;
use crate::enforce;
use crate::enforce::nft;
use crate::enforce::nft::RuleSourceModel;
use crate::enforce::route;
use crate::enforce::route::IpCmdModel;
use crate::enforce::run;
use crate::enforce::run::{ActionModel, EventModel, RunModel, StageModel};
use crate::enforce::DesiredModel;
use crate::net;
use crate::net::IpAddr;
use crate::ordered;
use crate::plan;
use crate::plan::{EgressModel, GatewayPlanModel, PlanModel};
use crate::seqs;
use crate::text;

verus! {

// ---------------------------------------------------------------------------
// The script

/// What one gateway adds is a part of what all add.
proof fn lemma_gathered(
    gs: Seq<RuleSourceModel>,
    one: spec_fn(RuleSourceModel) -> Seq<char>,
    i: int,
)
    requires
        0 <= i < gs.len(),
    ensures
        text::has_part(nft::gathered(gs, one), one(gs[i])),
    decreases gs.len(),
{
    let before = gs.drop_last();
    let all = nft::gathered(gs, one);
    let earlier = nft::gathered(before, one);
    if i == gs.len() - 1 {
        assert(all =~= earlier + one(gs[i]) + Seq::empty());
        text::lemma_part(earlier, one(gs[i]), Seq::empty());
    } else {
        lemma_gathered(before, one, i);
        assert(before[i] == gs[i]);
        assert(all =~= Seq::empty() + earlier + one(gs.last()));
        text::lemma_part(Seq::empty(), earlier, one(gs.last()));
        text::lemma_part_of_part(all, earlier, one(gs[i]));
    }
}

/// The script holds the sets and the rules of each gateway: those that mark its
/// members' traffic, those that masquerade, and its kill switch.
pub proof fn script_holds_each_gateway(gs: Seq<RuleSourceModel>, i: int)
    requires
        0 <= i < gs.len(),
    ensures
        text::has_part(nft::script_of(gs), nft::gateway_sets(gs[i])),
        text::has_part(nft::script_of(gs), nft::mark_rule(gs[i])),
        text::has_part(nft::script_of(gs), nft::snat_rule(gs[i])),
        text::has_part(nft::script_of(gs), nft::kill_rules(gs[i])),
{
    lemma_gathered(gs, |g: RuleSourceModel| nft::gateway_sets(g), i);
    lemma_gathered(gs, |g: RuleSourceModel| nft::mark_rule(g), i);
    lemma_gathered(gs, |g: RuleSourceModel| nft::snat_rule(g), i);
    lemma_gathered(gs, |g: RuleSourceModel| nft::kill_rules(g), i);
    lemma_snat_chain(nft::all_snats(gs), nft::snat_rule(gs[i]));
    lemma_script_parts(
        "add table inet degc\ndelete table inet degc\ntable inet degc {\n"@,
        nft::all_sets(gs),
        "    chain degc_mark {\n        type filter hook prerouting priority mangle; policy accept;\n"@,
        nft::all_marks(gs),
        "    }\n"@,
        nft::snat_chain(nft::all_snats(gs)),
        "    chain degc_killswitch {\n        type filter hook forward priority filter; policy accept;\n"@,
        nft::all_kills(gs),
        "    }\n}\n"@,
    );
    let s = nft::script_of(gs);
    text::lemma_part_of_part(s, nft::all_sets(gs), nft::gateway_sets(gs[i]));
    text::lemma_part_of_part(s, nft::all_marks(gs), nft::mark_rule(gs[i]));
    text::lemma_part_of_part(s, nft::snat_chain(nft::all_snats(gs)), nft::snat_rule(gs[i]));
    text::lemma_part_of_part(s, nft::all_kills(gs), nft::kill_rules(gs[i]));
}

/// What the chain that masquerades holds is a part of it.
proof fn lemma_snat_chain(rules: Seq<char>, part: Seq<char>)
    requires
        text::has_part(rules, part),
    ensures
        text::has_part(nft::snat_chain(rules), part),
{
    if rules.len() > 0 {
        let head =
            "    chain degc_snat {\n        type nat hook postrouting priority srcnat; policy accept;\n"@;
        text::lemma_part(head, rules, "    }\n"@);
        text::lemma_part_of_part(nft::snat_chain(rules), rules, part);
    } else {
        assert(nft::snat_chain(rules) =~= rules);
    }
}

/// Each of the parts of a text is a part of it.
proof fn lemma_script_parts(
    a: Seq<char>,
    b: Seq<char>,
    c: Seq<char>,
    d: Seq<char>,
    e: Seq<char>,
    f: Seq<char>,
    g: Seq<char>,
    h: Seq<char>,
    i: Seq<char>,
)
    ensures
        text::has_part(a + b + c + d + e + f + g + h + i, b),
        text::has_part(a + b + c + d + e + f + g + h + i, d),
        text::has_part(a + b + c + d + e + f + g + h + i, f),
        text::has_part(a + b + c + d + e + f + g + h + i, h),
{
    let ab = a + b;
    let abc = ab + c;
    let abcd = abc + d;
    let abcde = abcd + e;
    let f1 = abcde + f;
    let g1 = f1 + g;
    let h1 = g1 + h;
    text::lemma_last_part(a, b);
    text::lemma_earlier_part(ab, c, b);
    text::lemma_earlier_part(abc, d, b);
    text::lemma_earlier_part(abcd, e, b);
    text::lemma_earlier_part(abcde, f, b);
    text::lemma_earlier_part(f1, g, b);
    text::lemma_earlier_part(g1, h, b);
    text::lemma_earlier_part(h1, i, b);
    text::lemma_last_part(abc, d);
    text::lemma_earlier_part(abcd, e, d);
    text::lemma_earlier_part(abcde, f, d);
    text::lemma_earlier_part(f1, g, d);
    text::lemma_earlier_part(g1, h, d);
    text::lemma_earlier_part(h1, i, d);
    text::lemma_last_part(abcde, f);
    text::lemma_earlier_part(f1, g, f);
    text::lemma_earlier_part(g1, h, f);
    text::lemma_earlier_part(h1, i, f);
    text::lemma_last_part(g1, h);
    text::lemma_earlier_part(h1, i, h);
}

/// The script is one transaction: it adds the table, deletes it, and defines it
/// again. It starts as the script that removes the table does.
#[verifier::rlimit(30)]
pub proof fn script_replaces_the_table(gs: Seq<RuleSourceModel>)
    ensures
        nft::TEARDOWN_SCRIPT@.is_prefix_of(nft::script_of(gs)),
{
    reveal_strlit("add table inet degc\ndelete table inet degc\n");
    reveal_strlit("add table inet degc\ndelete table inet degc\ntable inet degc {\n");
    let head = "add table inet degc\ndelete table inet degc\ntable inet degc {\n"@;
    let s = nft::script_of(gs);
    let down = nft::TEARDOWN_SCRIPT@;
    assert(head.subrange(0, down.len() as int) =~= down);
    assert(s.subrange(0, head.len() as int) =~= head);
    assert(s.subrange(0, down.len() as int) =~= down) by {
        assert forall|i: int| 0 <= i < down.len() implies s[i] == down[i] by {
            assert(s.subrange(0, head.len() as int)[i] == head[i]);
            assert(head.subrange(0, down.len() as int)[i] == down[i]);
        }
    }
}

/// Marked traffic leaves an interface gateway by that interface only: its kill
/// switch drops it on every other.
pub proof fn interface_kill_switch(gs: Seq<RuleSourceModel>, i: int, name: Seq<char>)
    requires
        0 <= i < gs.len(),
        gs[i].egress == EgressModel::Interface(name),
    ensures
        text::has_part(
            nft::script_of(gs),
            "        meta mark "@ + gs[i].mark + " oifname != \""@ + name + "\" drop\n"@,
        ),
{
    script_holds_each_gateway(gs, i);
    let rule = nft::kill4_rule(gs[i]);
    assert(nft::kill_rules(gs[i]) =~= nft::kill6_rule(gs[i]) + rule + Seq::empty());
    text::lemma_part(nft::kill6_rule(gs[i]), rule, Seq::empty());
    text::lemma_part_of_part(nft::script_of(gs), nft::kill_rules(gs[i]), rule);
}

/// Where the egress is unavailable, all marked traffic is dropped and none is
/// masqueraded.
pub proof fn unavailable_egress_drops(gs: Seq<RuleSourceModel>, i: int, why: Seq<char>)
    requires
        0 <= i < gs.len(),
        gs[i].egress == EgressModel::Unavailable(why),
    ensures
        text::has_part(
            nft::script_of(gs),
            "        meta mark "@ + gs[i].mark + " drop   # egress unavailable: "@ + why + "\n"@,
        ),
        nft::snat_rule(gs[i]) == Seq::<char>::empty(),
{
    script_holds_each_gateway(gs, i);
    let rule = nft::kill4_rule(gs[i]);
    assert(nft::kill_rules(gs[i]) =~= nft::kill6_rule(gs[i]) + rule + Seq::empty());
    text::lemma_part(nft::kill6_rule(gs[i]), rule, Seq::empty());
    text::lemma_part_of_part(nft::script_of(gs), nft::kill_rules(gs[i]), rule);
}

/// Where a member has an IPv6 address, what members send over IPv6 is dropped,
/// but for the networks that stay direct.
pub proof fn ipv6_is_dropped(gs: Seq<RuleSourceModel>, i: int)
    requires
        0 <= i < gs.len(),
        gs[i].members6.len() > 0,
    ensures
        text::has_part(
            nft::script_of(gs),
            "        ip6 saddr @"@ + nft::via6_name(gs[i]) + nft::exclusion(
                nft::local6_name(gs[i]),
                "ip6 daddr"@,
                gs[i].locals6,
            ) + " drop\n"@,
        ),
{
    script_holds_each_gateway(gs, i);
    let rule = nft::kill6_rule(gs[i]);
    assert(nft::kill_rules(gs[i]) =~= Seq::empty() + rule + nft::kill4_rule(gs[i]));
    text::lemma_part(Seq::empty(), rule, nft::kill4_rule(gs[i]));
    text::lemma_part_of_part(nft::script_of(gs), nft::kill_rules(gs[i]), rule);
}

/// There is a chain that masquerades only where some gateway masquerades.
pub proof fn no_masquerade_without_need(gs: Seq<RuleSourceModel>)
    requires
        forall|i: int|
            0 <= i < gs.len() ==> !(#[trigger] gs[i]).snat || gs[i].egress is Unavailable,
    ensures
        nft::snat_chain(nft::all_snats(gs)) == Seq::<char>::empty(),
    decreases gs.len(),
{
    if gs.len() > 0 {
        let before = gs.drop_last();
        assert forall|i: int| 0 <= i < before.len() implies !(#[trigger] before[i]).snat
            || before[i].egress is Unavailable by {
            assert(before[i] == gs[i]);
        }
        no_masquerade_without_need(before);
        assert(gs[gs.len() - 1] == gs.last());
        lemma_snats(before);
        lemma_snats(gs);
        assert(nft::all_snats(gs) =~= Seq::<char>::empty());
    }
}

/// The rules that masquerade end with the chain's, so an empty chain has none.
proof fn lemma_snats(gs: Seq<RuleSourceModel>)
    ensures
        nft::snat_chain(nft::all_snats(gs)) == Seq::<char>::empty() ==> nft::all_snats(gs)
            == Seq::<char>::empty(),
        gs.len() > 0 ==> nft::all_snats(gs) == nft::all_snats(gs.drop_last()) + nft::snat_rule(
            gs.last(),
        ),
{
    reveal_strlit("    }\n");
}

/// Every address of a member is taken care of: an IPv4 address is in the set
/// whose traffic is marked, an IPv6 address in the set whose traffic is dropped.
pub proof fn every_member_address_is_covered(ips: Seq<IpAddr>, ip: IpAddr)
    requires
        ips.contains(ip),
    ensures
        nft::member_texts(ips, ip is V4).contains(net::ip_text(ip)),
    decreases ips.len(),
{
    let v4 = ip is V4;
    let all = nft::member_texts(ips, v4);
    let i = choose|i: int| 0 <= i < ips.len() && ips[i] == ip;
    if i == ips.len() - 1 {
        assert(all[all.len() - 1] == net::ip_text(ip));
    } else {
        let before = ips.drop_last();
        assert(before[i] == ip);
        every_member_address_is_covered(before, ip);
        let earlier = nft::member_texts(before, v4);
        let k = choose|k: int| 0 <= k < earlier.len() && earlier[k] == net::ip_text(ip);
        assert(all[k] == net::ip_text(ip));
    }
}

/// What the rules of each planned gateway are made from.
pub proof fn rules_are_made_from_the_plan(gps: Seq<GatewayPlanModel>, i: int)
    requires
        nft::sources_of(gps) is Ok,
        0 <= i < gps.len(),
    ensures
        (nft::sources_of(gps)->Ok_0).len() == gps.len(),
        v1alpha1::mark_of(gps[i].gateway) is Some,
        (nft::sources_of(gps)->Ok_0)[i] == nft::source_with(
            gps[i],
            v1alpha1::mark_of(gps[i].gateway)->0,
            nft::locals_of(gps[i].gateway),
        ),
    decreases gps.len(),
{
    let before = gps.drop_last();
    lemma_sources_len(before);
    if i < before.len() {
        rules_are_made_from_the_plan(before, i);
        assert(before[i] == gps[i]);
    }
}

proof fn lemma_sources_len(gps: Seq<GatewayPlanModel>)
    requires
        nft::sources_of(gps) is Ok,
    ensures
        (nft::sources_of(gps)->Ok_0).len() == gps.len(),
    decreases gps.len(),
{
    if gps.len() > 0 {
        lemma_sources_len(gps.drop_last());
    }
}

/// The first of four parts is a part of the whole, and so is the third.
proof fn lemma_sets_parts(a: Seq<char>, b: Seq<char>, c: Seq<char>, d: Seq<char>)
    ensures
        text::has_part(a + b + (c + d), a),
        text::has_part(a + b + (c + d), c),
        text::has_part(a + b + Seq::empty(), a),
{
    text::lemma_part(Seq::empty(), a, b + (c + d));
    assert(Seq::empty() + a + (b + (c + d)) =~= a + b + (c + d));
    text::lemma_part(a + b, c, d);
    assert(a + b + c + d =~= a + b + (c + d));
    text::lemma_part(Seq::empty(), a, b);
    assert(Seq::empty() + a + b =~= a + b + Seq::empty());
}

/// The script holds the set of each gateway's IPv4 members, and, where it has
/// any, that of its IPv6 members.
proof fn lemma_member_sets(gs: Seq<RuleSourceModel>, i: int)
    requires
        0 <= i < gs.len(),
    ensures
        text::has_part(
            nft::script_of(gs),
            nft::set_text(nft::via_name(gs[i]), "ipv4_addr"@, false, gs[i].members4),
        ),
        gs[i].members6.len() > 0 ==> text::has_part(
            nft::script_of(gs),
            nft::set_text(nft::via6_name(gs[i]), "ipv6_addr"@, false, gs[i].members6),
        ),
{
    let g = gs[i];
    let set4 = nft::set_text(nft::via_name(g), "ipv4_addr"@, false, g.members4);
    let set6 = nft::set_text(nft::via6_name(g), "ipv6_addr"@, false, g.members6);
    script_holds_each_gateway(gs, i);
    lemma_sets_parts(
        set4,
        nft::exclusion_set(nft::local_name(g), "ipv4_addr"@, g.locals4),
        set6,
        nft::exclusion_set(nft::local6_name(g), "ipv6_addr"@, g.locals6),
    );
    text::lemma_part_of_part(nft::script_of(gs), nft::gateway_sets(g), set4);
    if g.members6.len() > 0 {
        text::lemma_part_of_part(nft::script_of(gs), nft::gateway_sets(g), set6);
    }
}

/// Nothing that a member sends leaves unguarded. The script for a plan lists
/// every IPv4 address of a gateway's members in the set whose traffic it marks
/// with the gateway's mark. Every IPv6 address is in the set whose traffic it
/// drops.
pub proof fn members_are_guarded(plan: PlanModel, i: int, ip: IpAddr)
    requires
        v1alpha1::routing_fault(enforce::planned(plan.gateways)) is None,
        0 <= i < plan.gateways.len(),
        plan.gateways[i].members.finite(),
        plan.gateways[i].members.contains(ip),
    ensures
        ({
            let g = (nft::sources_of(plan.gateways)->Ok_0)[i];
            let script = enforce::desired_of(plan).nft;
            &&& ip is V4 ==> {
                &&& g.members4.contains(net::ip_text(ip))
                &&& text::has_part(
                    script,
                    nft::set_text(nft::via_name(g), "ipv4_addr"@, false, g.members4),
                )
                &&& text::has_part(script, nft::mark_rule(g))
            }
            &&& ip is V6 ==> {
                &&& g.members6.contains(net::ip_text(ip))
                &&& text::has_part(
                    script,
                    nft::set_text(nft::via6_name(g), "ipv6_addr"@, false, g.members6),
                )
                &&& text::has_part(script, nft::kill6_rule(g))
            }
        }),
{
    let gps = plan.gateways;
    compiling_succeeds(gps);
    rules_are_made_from_the_plan(gps, i);
    let sources = nft::sources_of(gps)->Ok_0;
    let ips = ordered::sorted_ips(gps[i].members);
    assert(ordered::strict_order(ordered::by_ip()));
    ordered::finite_sets_sort(gps[i].members, ordered::by_ip());
    assert(ips.to_set().contains(ip));
    every_member_address_is_covered(ips, ip);
    script_holds_each_gateway(sources, i);
    lemma_member_sets(sources, i);
    if ip is V6 {
        assert(sources[i].members6.len() > 0);
        ipv6_is_dropped(sources, i);
    }
}

/// Every network that stays direct is excluded from what is marked, or, of
/// IPv6, from what is dropped: it is in the set of its family.
pub proof fn local_networks_are_excluded(subnets: Seq<Seq<char>>, i: int)
    requires
        0 <= i < subnets.len(),
        net::network_named(subnets[i]) is Some,
    ensures
        ({
            let n = net::network_named(subnets[i])->0;
            nft::network_texts(nft::networks_named(subnets), n is V4).contains(
                net::network_text(n),
            )
        }),
    decreases subnets.len(),
{
    let n = net::network_named(subnets[i])->0;
    let before = subnets.drop_last();
    if i == subnets.len() - 1 {
        assert(nft::networks_named(subnets).last() == n);
        let all = nft::network_texts(nft::networks_named(subnets), n is V4);
        assert(all[all.len() - 1] == net::network_text(n));
    } else {
        assert(before[i] == subnets[i]);
        local_networks_are_excluded(before, i);
        let earlier = nft::network_texts(nft::networks_named(before), n is V4);
        let k = choose|k: int| 0 <= k < earlier.len() && earlier[k] == net::network_text(n);
        let ns = nft::networks_named(subnets);
        let all = nft::network_texts(ns, n is V4);
        if net::network_named(subnets.last()) is Some {
            assert(ns.drop_last() =~= nft::networks_named(before));
        }
        assert(all[k] == net::network_text(n));
    }
}

/// A name that was made an identifier has only characters that may stand in one,
/// and stays as it is when it is made one again.
pub proof fn identifiers_are_valid(name: Seq<char>)
    ensures
        nft::identifier(name).len() == name.len(),
        forall|i: int|
            0 <= i < name.len() ==> nft::identifier_char(#[trigger] nft::identifier(name)[i]),
        nft::identifier(nft::identifier(name)) == nft::identifier(name),
{
    assert(nft::identifier(nft::identifier(name)) =~= nft::identifier(name));
}

// ---------------------------------------------------------------------------
// The commands

/// Each gateway has three commands, in this order: the floor, the rule that
/// diverts its traffic, and the live default. So the floor is there before any
/// traffic is diverted, and between the commands of a gateway stand none of
/// another.
pub proof fn floor_comes_first(gps: Seq<GatewayPlanModel>, i: int)
    requires
        route::build_of(gps) is Ok,
        0 <= i < gps.len(),
    ensures
        ({
            let cmds = route::build_of(gps)->Ok_0;
            let g = gps[i].gateway;
            let mark = text::hex_text(v1alpha1::mark_of(g)->0 as nat);
            let table = text::decimal_text(v1alpha1::table_of(g) as nat);
            &&& cmds.len() == 3 * gps.len()
            &&& cmds[3 * i] == route::floor_cmd(table)
            &&& cmds[3 * i + 1] == route::divert_cmd(mark, table)
            &&& cmds[3 * i + 2] == route::live_cmd(
                gps[i].egress,
                route::hop_text(gps[i].egress),
                table,
            )
        }),
    decreases gps.len(),
{
    let before = gps.drop_last();
    let g = gps.last();
    let earlier = route::build_of(before)->Ok_0;
    let all = route::build_of(gps)->Ok_0;
    lemma_build_len(before);
    let more = route::gateway_cmds(
        v1alpha1::mark_of(g.gateway)->0,
        v1alpha1::table_of(g.gateway),
        g.egress,
        route::hop_text(g.egress),
    );
    assert(all == earlier + more);
    if i < before.len() {
        floor_comes_first(before, i);
        assert(before[i] == gps[i]);
    }
}

proof fn lemma_build_len(gps: Seq<GatewayPlanModel>)
    requires
        route::build_of(gps) is Ok,
    ensures
        (route::build_of(gps)->Ok_0).len() == 3 * gps.len(),
    decreases gps.len(),
{
    if gps.len() > 0 {
        lemma_build_len(gps.drop_last());
    }
}

/// Nothing is flushed while a plan is applied, so no table is ever empty: each
/// command replaces a route, adds a rule, or removes the live default.
pub proof fn nothing_is_flushed(gps: Seq<GatewayPlanModel>, k: int)
    requires
        route::build_of(gps) is Ok,
        0 <= k < (route::build_of(gps)->Ok_0).len(),
    ensures
        ({
            let args = (route::build_of(gps)->Ok_0)[k].args;
            args[1] == "replace"@ || args[1] == "add"@ || args[1] == "del"@
        }),
{
    lemma_build_len(gps);
    let i = k / 3;
    assert(0 <= i < gps.len());
    floor_comes_first(gps, i);
    assert(k == 3 * i || k == 3 * i + 1 || k == 3 * i + 2);
}

/// Where the egress is unavailable, no live default is installed: what is left
/// of one is removed, and only the floor stays.
pub proof fn unavailable_egress_has_no_live_default(
    egress: EgressModel,
    hop: Seq<char>,
    table: Seq<char>,
)
    requires
        egress is Unavailable,
    ensures
        ({
            let c = route::live_cmd(egress, hop, table);
            &&& c.ignore_fail
            &&& c.args == seq![
                "route"@,
                "del"@,
                "default"@,
                "table"@,
                table,
                "proto"@,
                route::RT_PROTO@,
                "metric"@,
                "1"@,
            ]
        }),
{
}

/// The rule that diverts a gateway's traffic has the fixed priority, whatever
/// the number of its routing table.
pub proof fn priority_is_fixed(mark: Seq<char>, table: Seq<char>)
    ensures
        route::divert_cmd(mark, table).args[6] == "priority"@,
        route::divert_cmd(mark, table).args[7] == route::RULE_PRIORITY@,
        route::divert_cmd(mark, table).args.len() == 8,
{
}

/// Removing is the reverse of installing, and can always be run: for each
/// gateway the rule of its mark and table is deleted, and of its table only
/// what carries the tag is flushed. Each of these commands may fail.
pub proof fn teardown_removes_what_was_built(gs: Seq<GatewayModel>, i: int)
    requires
        route::teardown_of(gs) is Ok,
        0 <= i < gs.len(),
    ensures
        ({
            let cmds = route::teardown_of(gs)->Ok_0;
            let mark = text::hex_text(v1alpha1::mark_of(gs[i])->0 as nat);
            let table = text::decimal_text(v1alpha1::table_of(gs[i]) as nat);
            &&& cmds.len() == 2 * gs.len()
            &&& cmds[2 * i] == route::undivert_cmd(mark, table)
            &&& cmds[2 * i + 1] == route::flush_cmd(table)
            &&& route::undivert_cmd(mark, table).ignore_fail
            &&& route::flush_cmd(table).ignore_fail
        }),
    decreases gs.len(),
{
    let before = gs.drop_last();
    let g = gs.last();
    let earlier = route::teardown_of(before)->Ok_0;
    let all = route::teardown_of(gs)->Ok_0;
    lemma_teardown_len(before);
    let more = route::removal_cmds(v1alpha1::mark_of(g)->0, v1alpha1::table_of(g));
    assert(all == earlier + more);
    if i < before.len() {
        teardown_removes_what_was_built(before, i);
        assert(before[i] == gs[i]);
    }
}

proof fn lemma_teardown_len(gs: Seq<GatewayModel>)
    requires
        route::teardown_of(gs) is Ok,
    ensures
        (route::teardown_of(gs)->Ok_0).len() == 2 * gs.len(),
    decreases gs.len(),
{
    if gs.len() > 0 {
        lemma_teardown_len(gs.drop_last());
    }
}

// ---------------------------------------------------------------------------
// The check before

/// Routes that carry the tag are not foreign: a table that holds nothing else,
/// or nothing at all, is free.
pub proof fn own_routes_are_not_foreign(routes: Seq<char>)
    requires
        forall|i: int|
            0 <= i < route::trimmed_lines(routes).len() ==> {
                ||| (#[trigger] route::trimmed_lines(routes)[i]).len() == 0
                ||| text::has_part(route::trimmed_lines(routes)[i], route::route_tag())
            },
    ensures
        route::foreign_route_of(routes) is None,
{
    let ls = route::trimmed_lines(routes);
    assert forall|i: int| 0 <= i < ls.len() implies !route::is_foreign()(#[trigger] ls[i]) by {}
    seqs::lemma_first_none(ls, route::is_foreign());
}

/// A rule that looks up the gateway's own table is no conflict, and neither is
/// one for another mark: where no rule matches the mark but looks up another
/// table, there is none.
pub proof fn own_rules_are_no_conflict(rules: Seq<char>, mark: Seq<char>, table: Seq<char>)
    requires
        forall|i: int|
            0 <= i < text::lines_of(rules).len() ==> {
                let words = text::words_of(#[trigger] text::lines_of(rules)[i]);
                ||| route::rule_mark(words) != Some(mark)
                ||| route::word_after(words, "lookup"@) == Some(table)
            },
    ensures
        route::conflicting_rule_of(rules, mark, table) is None,
{
    let ls = text::lines_of(rules);
    assert forall|i: int| 0 <= i < ls.len() implies !route::is_conflict(mark, table)(
        #[trigger] ls[i],
    ) by {}
    seqs::lemma_first_none(ls, route::is_conflict(mark, table));
}

/// The check passes exactly where no gateway collides with anyone.
pub proof fn preflight_checks_every_gateway(
    guards: Seq<(Seq<char>, u32)>,
    rules: Seq<char>,
    routes: Seq<Seq<char>>,
)
    ensures
        route::preflight_collision(guards, rules, routes) is None <==> forall|i: int|
            0 <= i < guards.len() ==> route::guard_collision(
                (#[trigger] guards[i]).0,
                guards[i].1,
                rules,
                route::listing(routes, i),
            ) is None,
    decreases guards.len(),
{
    if guards.len() > 0 {
        let before = guards.drop_last();
        preflight_checks_every_gateway(before, rules, routes);
        let n = guards.len() - 1;
        assert(guards[n] == guards.last());
        if route::preflight_collision(guards, rules, routes) is None {
            assert forall|i: int| 0 <= i < guards.len() implies route::guard_collision(
                (#[trigger] guards[i]).0,
                guards[i].1,
                rules,
                route::listing(routes, i),
            ) is None by {
                if i < n {
                    assert(before[i] == guards[i]);
                }
            }
        } else if forall|i: int|
            0 <= i < guards.len() ==> route::guard_collision(
                (#[trigger] guards[i]).0,
                guards[i].1,
                rules,
                route::listing(routes, i),
            ) is None {
            assert forall|i: int| 0 <= i < before.len() implies route::guard_collision(
                (#[trigger] before[i]).0,
                before[i].1,
                rules,
                route::listing(routes, i),
            ) is None by {
                assert(before[i] == guards[i]);
            }
            assert(route::guard_collision(
                guards[n].0,
                guards[n].1,
                rules,
                route::listing(routes, n),
            ) is None);
        }
    }
}

/// What is checked is what is installed: each gateway's guard has the mark and
/// the table of its commands.
pub proof fn guards_match_commands(plan: PlanModel, i: int)
    requires
        v1alpha1::routing_fault(enforce::planned(plan.gateways)) is None,
        0 <= i < plan.gateways.len(),
    ensures
        ({
            let d = enforce::desired_of(plan);
            &&& d.guards.len() == plan.gateways.len()
            &&& d.ip.len() == 3 * plan.gateways.len()
            &&& d.ip[3 * i] == route::floor_cmd(text::decimal_text(d.guards[i].1 as nat))
            &&& d.ip[3 * i + 1] == route::divert_cmd(
                d.guards[i].0,
                text::decimal_text(d.guards[i].1 as nat),
            )
        }),
{
    compiling_succeeds(plan.gateways);
    floor_comes_first(plan.gateways, i);
    assert(enforce::guards_for(plan.gateways)[i] == (
        text::hex_text(v1alpha1::mark_of(plan.gateways[i].gateway)->0 as nat),
        v1alpha1::table_of(plan.gateways[i].gateway),
    ));
}

/// Gateways that can be told apart are all that is needed: then both the script
/// and the commands can be built.
pub proof fn compiling_succeeds(gps: Seq<GatewayPlanModel>)
    requires
        v1alpha1::routing_fault(enforce::planned(gps)) is None,
    ensures
        nft::sources_of(gps) is Ok,
        route::build_of(gps) is Ok,
{
    enforce::lemma_marks_read(enforce::planned(gps));
    assert forall|k: int| 0 <= k < gps.len() implies v1alpha1::mark_of(
        (#[trigger] gps[k]).gateway,
    ) is Some by {
        assert(enforce::planned(gps)[k] == gps[k].gateway);
    }
    enforce::lemma_builds(gps);
}

/// A gateway whose egress is unavailable is closed: the script drops what is
/// marked with its mark, and of its routing table only the floor stays.
pub proof fn unavailable_gateway_is_closed(plan: PlanModel, i: int, why: Seq<char>)
    requires
        v1alpha1::routing_fault(enforce::planned(plan.gateways)) is None,
        0 <= i < plan.gateways.len(),
        plan.gateways[i].egress == EgressModel::Unavailable(why),
    ensures
        ({
            let d = enforce::desired_of(plan);
            let table = text::decimal_text(d.guards[i].1 as nat);
            &&& text::has_part(
                d.nft,
                "        meta mark "@ + d.guards[i].0 + " drop   # egress unavailable: "@ + why
                    + "\n"@,
            )
            &&& d.ip[3 * i] == route::floor_cmd(table)
            &&& d.ip[3 * i + 2] == route::live_cmd(
                EgressModel::Unavailable(why),
                Seq::empty(),
                table,
            )
        }),
{
    let gps = plan.gateways;
    compiling_succeeds(gps);
    rules_are_made_from_the_plan(gps, i);
    floor_comes_first(gps, i);
    unavailable_egress_drops(nft::sources_of(gps)->Ok_0, i, why);
}

/// Removing clears the marks and the tables that installing guards: for a plan
/// of the same gateways, each rule that is deleted is that of a guard.
pub proof fn teardown_matches_guards(plan: PlanModel, i: int)
    requires
        v1alpha1::routing_fault(enforce::planned(plan.gateways)) is None,
        0 <= i < plan.gateways.len(),
    ensures
        route::teardown_of(enforce::planned(plan.gateways)) is Ok,
        ({
            let d = enforce::desired_of(plan);
            let cmds = route::teardown_of(enforce::planned(plan.gateways))->Ok_0;
            let table = text::decimal_text(d.guards[i].1 as nat);
            &&& cmds[2 * i] == route::undivert_cmd(d.guards[i].0, table)
            &&& cmds[2 * i + 1] == route::flush_cmd(table)
        }),
{
    let gs = enforce::planned(plan.gateways);
    enforce::lemma_marks_read(gs);
    lemma_teardown_ok(gs);
    teardown_removes_what_was_built(gs, i);
    assert(gs[i] == plan.gateways[i].gateway);
}

/// Removing leaves nothing of what was programmed for these containers, be a
/// gateway configured or declared by a container: the table is deleted, and the
/// rule and the routes of every gateway of the plan are removed, each by the mark
/// and the table that were guarded when it was installed.
pub proof fn all_that_was_programmed_is_removed(
    targets: Seq<TargetModel>,
    prefix: Seq<char>,
    config: Seq<GatewayModel>,
    i: int,
)
    requires
        v1alpha1::routing_fault(
            enforce::planned(plan::plan_of(targets, prefix, config).gateways),
        ) is None,
        0 <= i < plan::plan_of(targets, prefix, config).gateways.len(),
    ensures
        ({
            let d = enforce::desired_of(plan::plan_of(targets, prefix, config));
            let removal = run::down_run(
                plan::merged(config, plan::declared(prefix, targets)),
            );
            let table = text::decimal_text(d.guards[i].1 as nat);
            &&& removal.nft == nft::TEARDOWN_SCRIPT@
            &&& removal.ip is Ok
            &&& (removal.ip->Ok_0)[2 * i] == route::undivert_cmd(d.guards[i].0, table)
            &&& (removal.ip->Ok_0)[2 * i + 1] == route::flush_cmd(table)
            &&& d.guards.len() == plan::plan_of(targets, prefix, config).gateways.len()
            &&& (removal.ip->Ok_0).len() == 2 * d.guards.len()
        }),
{
    let p = plan::plan_of(targets, prefix, config);
    let gs = plan::merged(config, plan::declared(prefix, targets));
    assert(enforce::planned(p.gateways) =~= gs);
    teardown_matches_guards(p, i);
    teardown_removes_what_was_built(gs, i);
}

proof fn lemma_teardown_ok(gs: Seq<GatewayModel>)
    requires
        forall|i: int| 0 <= i < gs.len() ==> v1alpha1::mark_of(#[trigger] gs[i]) is Some,
    ensures
        route::teardown_of(gs) is Ok,
    decreases gs.len(),
{
    if gs.len() > 0 {
        let before = gs.drop_last();
        assert forall|i: int| 0 <= i < before.len() implies v1alpha1::mark_of(
            #[trigger] before[i],
        ) is Some by {
            assert(before[i] == gs[i]);
        }
        lemma_teardown_ok(before);
        assert(gs[gs.len() - 1] == gs.last());
    }
}

// ---------------------------------------------------------------------------
// Runs

/// The run after these events.
pub open spec fn run_after(start: RunModel, events: Seq<EventModel>) -> RunModel
    decreases events.len(),
{
    if events.len() == 0 {
        start
    } else {
        run::after(run_after(start, events.drop_last()), events.last())
    }
}

/// What was shown, in order.
pub open spec fn shown(events: Seq<EventModel>) -> Seq<Seq<char>>
    decreases events.len(),
{
    if events.len() == 0 {
        Seq::empty()
    } else {
        match events.last() {
            EventModel::Shown(s) => shown(events.drop_last()).push(s),
            _ => shown(events.drop_last()),
        }
    }
}

/// Whether the first guards are free, going by the rules and the routes that
/// were shown.
spec fn free_so_far(guards: Seq<(Seq<char>, u32)>, shown: Seq<Seq<char>>, n: int) -> bool {
    &&& 0 <= n <= guards.len()
    &&& shown.len() >= n + 1
    &&& forall|i: int|
        0 <= i < n ==> route::guard_collision(
            (#[trigger] guards[i]).0,
            guards[i].1,
            shown[0],
            shown[i + 1],
        ) is None
}

/// How a run that programs the host stands to what was shown.
spec fn checked(run: RunModel, shown: Seq<Seq<char>>) -> bool {
    match run.stage {
        StageModel::Log(_) => false,
        StageModel::Rules => shown.len() == 0,
        StageModel::Routes { rules, free } => {
            &&& free < run.guards.len()
            &&& free_so_far(run.guards, shown, free)
            &&& shown.len() == free + 1
            &&& shown[0] == rules
        },
        StageModel::Failed => true,
        _ => free_so_far(run.guards, shown, run.guards.len() as int),
    }
}

proof fn lemma_checked(d: DesiredModel, events: Seq<EventModel>)
    ensures
        run_after(run::system_run(d), events).guards == d.guards,
        checked(run_after(run::system_run(d), events), shown(events)),
    decreases events.len(),
{
    if events.len() > 0 {
        let earlier = events.drop_last();
        lemma_checked(d, earlier);
        let before = run_after(run::system_run(d), earlier);
        let after = run_after(run::system_run(d), events);
        let t = shown(earlier);
        let t1 = shown(events);
        let guards = d.guards;
        match (before.stage, events.last()) {
            (StageModel::Rules, EventModel::Shown(rules)) => {
                assert(t1 =~= seq![rules]);
                assert(free_so_far(guards, t1, 0));
            },
            (StageModel::Routes { rules, free }, EventModel::Shown(routes)) => {
                assert(t1 == t.push(routes));
                if route::guard_collision(guards[free].0, guards[free].1, rules, routes) is None {
                    assert forall|i: int| 0 <= i < free + 1 implies route::guard_collision(
                        (#[trigger] guards[i]).0,
                        guards[i].1,
                        t1[0],
                        t1[i + 1],
                    ) is None by {
                        if i < free {
                            assert(t1[i + 1] == t[i + 1]);
                        }
                    }
                    assert(free_so_far(guards, t1, free + 1));
                }
            },
            (_, EventModel::Shown(s)) => {
                assert(t1 == t.push(s));
                if after.stage != StageModel::Failed {
                    assert(after.stage == before.stage);
                    assert forall|i: int| 0 <= i < guards.len() implies route::guard_collision(
                        (#[trigger] guards[i]).0,
                        guards[i].1,
                        t1[0],
                        t1[i + 1],
                    ) is None by {
                        assert(t1[i + 1] == t[i + 1]);
                    }
                }
            },
            _ => {
                assert(t1 == t);
            },
        }
    }
}

/// Nothing is programmed before the host was checked: a run that comes to the
/// script, to a command, or to its end was shown the rules and the routes of
/// every gateway's table, and they leave every gateway's mark and table free.
pub proof fn nothing_before_the_check(d: DesiredModel, events: Seq<EventModel>)
    requires
        ({
            let stage = run_after(run::system_run(d), events).stage;
            stage is Nft || stage is Ip || stage is Done
        }),
    ensures
        shown(events).len() >= d.guards.len() + 1,
        route::preflight_collision(
            d.guards,
            shown(events)[0],
            shown(events).subrange(1, d.guards.len() as int + 1),
        ) is None,
{
    lemma_checked(d, events);
    let t = shown(events);
    let routes = t.subrange(1, d.guards.len() as int + 1);
    assert forall|i: int| 0 <= i < d.guards.len() implies route::guard_collision(
        (#[trigger] d.guards[i]).0,
        d.guards[i].1,
        t[0],
        route::listing(routes, i),
    ) is None by {
        assert(routes[i] == t[i + 1]);
    }
    preflight_checks_every_gateway(d.guards, t[0], routes);
}

/// A dry run programs nothing, whatever happens: it asks only for its text to be
/// logged.
pub proof fn dry_run_programs_nothing(d: DesiredModel, events: Seq<EventModel>)
    ensures
        ({
            let r = run_after(run::dry_run(d), events);
            &&& r.stage == run::dry_run(d).stage || r.stage == StageModel::Done
            &&& match run::action_of(r) {
                Some(ActionModel::Log(_)) => true,
                None => true,
                _ => false,
            }
        }),
    decreases events.len(),
{
    if events.len() > 0 {
        dry_run_programs_nothing(d, events.drop_last());
    }
}

/// A dry run shows what a run would program: its text holds the script and each
/// command of the same state.
pub proof fn dry_run_shows_what_would_be_programmed(d: DesiredModel, k: int)
    requires
        0 <= k < d.ip.len(),
    ensures
        run::dry_run(d).stage == StageModel::Log(
            "dry-run — would apply:\n"@ + enforce::desired_text(d),
        ),
        text::has_part(enforce::desired_text(d), run::system_run(d).nft),
        run::system_run(d).ip is Ok,
        text::has_part(
            enforce::desired_text(d),
            enforce::cmd_line((run::system_run(d).ip->Ok_0)[k]),
        ),
{
    let a = "# degc desired host state\n"@ + enforce::warning_lines(d.warnings)
        + "# --- nftables (nft -f -) ---\n"@;
    text::lemma_last_part(a, d.nft);
    text::lemma_earlier_part(a + d.nft, "# --- routing (ip) ---\n"@, d.nft);
    let b = a + d.nft + "# --- routing (ip) ---\n"@;
    text::lemma_earlier_part(b, enforce::cmd_lines(d.ip), d.nft);
    text::lemma_last_part(b, enforce::cmd_lines(d.ip));
    lemma_cmd_lines(d.ip, k);
    text::lemma_part_of_part(
        enforce::desired_text(d),
        enforce::cmd_lines(d.ip),
        enforce::cmd_line(d.ip[k]),
    );
}

/// The line of each command is a part of the lines of all.
proof fn lemma_cmd_lines(ip: Seq<IpCmdModel>, k: int)
    requires
        0 <= k < ip.len(),
    ensures
        text::has_part(enforce::cmd_lines(ip), enforce::cmd_line(ip[k])),
    decreases ip.len(),
{
    let before = ip.drop_last();
    if k == ip.len() - 1 {
        text::lemma_last_part(enforce::cmd_lines(before), enforce::cmd_line(ip[k]));
    } else {
        lemma_cmd_lines(before, k);
        assert(before[k] == ip[k]);
        text::lemma_earlier_part(
            enforce::cmd_lines(before),
            enforce::cmd_line(ip.last()),
            enforce::cmd_line(ip[k]),
        );
    }
}

/// A command that may fail never ends a run by failing.
pub proof fn expected_failures_are_ignored(run: RunModel, next: int, success: bool, stderr: Seq<char>)
    requires
        run.stage == StageModel::Ip(next),
        run.ip is Ok,
        0 <= next < (run.ip->Ok_0).len(),
        (run.ip->Ok_0)[next].ignore_fail,
    ensures
        !(run::after(run, EventModel::Exited { success, stderr }).stage is Failed),
{
}

/// The commands are run in order, and only after the script succeeded: a run
/// comes to a command only from the script, where it is the first, or from the
/// one before, which succeeded or was allowed to fail.
pub proof fn commands_run_in_order(run: RunModel, event: EventModel, k: int)
    requires
        run::after(run, event).stage == StageModel::Ip(k),
        run.stage != StageModel::Ip(k),
    ensures
        match event {
            EventModel::Exited { success, .. } => {
                ||| k == 0 && run.stage is Nft && success
                ||| run.stage == StageModel::Ip(k - 1) && run.ip is Ok && 0 <= k - 1 < (
                run.ip->Ok_0).len() && (success || (run.ip->Ok_0)[k - 1].ignore_fail)
            },
            _ => false,
        },
{
}

/// A run that programs is done only once all is done: it comes to its end from
/// the last command, or from the script where there is no command.
pub proof fn done_means_all_was_run(run: RunModel, event: EventModel)
    requires
        run::after(run, event).stage is Done,
        !(run.stage is Done),
        !(run.stage is Log),
    ensures
        run.ip is Ok,
        run.stage is Nft && (run.ip->Ok_0).len() == 0 || run.stage == StageModel::Ip(
            (run.ip->Ok_0).len() - 1,
        ),
{
}

/// A run that is over stays as it is.
pub proof fn over_is_over(run: RunModel, event: EventModel)
    requires
        run.stage is Done || run.stage is Failed,
    ensures
        run::after(run, event) == run,
        run::action_of(run) is None,
{
}

} // verus!
