use degc::api::v1alpha1::{ConfigError, Egress as CfgEgress, Gateway, Gateways, Labels};
use degc::docker::Target;
use degc::enforce::nft::{
    build_script, emit_set, excl_clause, gateway_rules, sanitize, write_script, RuleSource,
    TEARDOWN_SCRIPT,
};
use degc::enforce::route::{
    build, check_guard, conflicting_fwmark_rule, foreign_route, gateway_commands, preflight,
    teardown, Collision, IpCmd, RT_PROTO, RULE_PRIORITY,
};
use degc::enforce::run::{Action, Event, Run, RunError, Stage};
use degc::enforce::{
    compile, down, down_all, select, unknown_gateway_message, Backend, Desired, DryRunEnforcer, Enforcer,
    SystemEnforcer,
};
use degc::net::IpAddr;
use degc::ordered::{IpSet, TextMap};
use degc::plan::{Egress, GatewayPlan, Plan};

fn ip(s: &str) -> IpAddr {
    IpAddr::parse(s).unwrap()
}

fn ips(list: &[&str]) -> IpSet {
    let mut s = IpSet::new();
    for a in list {
        s.insert(ip(a));
    }
    s
}

fn gw() -> Gateway {
    Gateway {
        name: "vpn".to_owned(),
        egress: CfgEgress::default(),
        snat: Some(true),
        mark: Some("0x4".to_owned()),
        table: Some(200),
        default: false,
        local_subnets: vec!["10.0.0.0/8".to_owned(), "fd00::/8".to_owned()],
        members: vec![],
    }
}

fn routed(g: Gateway, egress: Egress, members: IpSet) -> GatewayPlan {
    GatewayPlan {
        gateway: g,
        egress,
        members,
        member_names: TextMap::new(),
    }
}

fn plan_of(gateways: Vec<GatewayPlan>) -> Plan {
    Plan {
        gateways,
        unresolved: vec![],
        conflicts: vec![],
        discovery_errors: vec![],
    }
}

fn plan_with(g: &Gateway, egress: Egress, members: IpSet) -> Plan {
    plan_of(vec![routed(g.clone(), egress, members)])
}

fn flat(cmds: &[IpCmd]) -> Vec<String> {
    cmds.iter().map(|c| c.args.join(" ")).collect()
}

fn wg0() -> Egress {
    Egress::Interface("wg0".to_owned())
}

fn exited(success: bool, stderr: &str) -> Event {
    Event::Exited {
        success,
        stderr: stderr.to_owned(),
    }
}

#[test]
fn interface_egress_marks_snats_and_killswitches() {
    let g = gw();
    let plan = plan_with(&g, wg0(), ips(&["172.18.0.7", "fd00::1"]));
    let s = build_script(&plan).unwrap();

    assert!(s.contains("add table inet degc"));
    assert!(
        s.contains("delete table inet degc"),
        "delete (not flush) so set elements don't linger: {s}"
    );
    // IPv4 is marked and routed
    assert!(
        s.contains("elements = { 172.18.0.7 }"),
        "v4 member in the mark set: {s}"
    );
    assert!(
        s.contains("elements = { 10.0.0.0/8 }"),
        "v4 local exclusion: {s}"
    );
    assert!(s.contains("ip saddr @degc_via_vpn ip daddr != @degc_local_vpn meta mark set 0x4"));
    assert!(s.contains("meta mark 0x4 oifname \"wg0\" masquerade"));
    assert!(s.contains("meta mark 0x4 oifname != \"wg0\" drop"));
    // IPv6 is dropped
    assert!(
        s.contains("set degc_via6_vpn"),
        "v6 member set present: {s}"
    );
    assert!(
        s.contains("elements = { fd00::1 }"),
        "v6 member captured: {s}"
    );
    assert!(
        s.contains("ip6 saddr @degc_via6_vpn ip6 daddr != @degc_local6_vpn drop"),
        "v6 kill-switch: {s}"
    );
}

#[test]
fn unavailable_egress_drops_all_marked_and_has_no_snat() {
    let g = gw();
    let plan = plan_with(
        &g,
        Egress::Unavailable("gluetun not running".to_owned()),
        IpSet::new(),
    );
    let s = build_script(&plan).unwrap();

    assert!(s.contains("meta mark 0x4 drop"));
    assert!(!s.contains("masquerade"), "no egress to snat onto: {s}");
    assert!(!s.contains("oifname"), "no interface to match: {s}");
}

fn route_gw() -> Gateway {
    let mut g = gw();
    g.snat = Some(false);
    g.local_subnets = vec![];
    g
}

#[test]
fn interface_egress_routes_via_dev_with_blackhole_fallback() {
    let plan = plan_with(&route_gw(), wg0(), IpSet::new());
    let cmds = build(&plan).unwrap();
    let f = flat(&cmds);
    assert!(
        f.iter()
            .any(|c| c == "rule add fwmark 0x4 table 200 priority 100"),
        "{f:?}"
    );
    assert!(
        f.iter()
            .any(|c| c == "route replace default dev wg0 table 200 proto 194 metric 1"),
        "{f:?}"
    );
    assert!(
        f.iter()
            .any(|c| c == "route replace blackhole default table 200 proto 194 metric 9999"),
        "{f:?}"
    );
}

#[test]
fn unavailable_egress_has_only_the_blackhole_default() {
    let plan = plan_with(
        &route_gw(),
        Egress::Unavailable("down".to_owned()),
        IpSet::new(),
    );
    let cmds = build(&plan).unwrap();
    let f = flat(&cmds);
    assert!(
        f.iter()
            .any(|c| c == "route replace blackhole default table 200 proto 194 metric 9999"),
        "{f:?}"
    );
    assert!(
        f.iter()
            .any(|c| c == "route del default table 200 proto 194 metric 1"),
        "stale live default removed: {f:?}"
    );
    assert!(
        !f.iter().any(|c| c.starts_with("route replace default")),
        "no live default: {f:?}"
    );
}

#[test]
fn teardown_removes_rule_and_flushes_table_idempotently() {
    let gws = Gateways(vec![route_gw()]);
    let cmds = teardown(&gws).unwrap();
    let f = flat(&cmds);
    assert!(
        f.iter().any(|c| c == "rule del fwmark 0x4 table 200"),
        "{f:?}"
    );
    assert!(
        f.iter().any(|c| c == "route flush table 200 proto 194"),
        "{f:?}"
    );
    assert!(
        cmds.iter().all(|c| c.ignore_fail),
        "teardown must tolerate absent state: {f:?}"
    );
}

#[test]
fn foreign_route_flags_only_non_degc_routes() {
    let ours =
        "default dev wg0 table 200 proto 194 metric 1\nblackhole default proto 194 metric 9999";
    assert!(
        foreign_route(ours).is_none(),
        "our own routes must not be flagged"
    );
    assert!(
        foreign_route("").is_none(),
        "empty/absent table = no occupant"
    );
    assert!(foreign_route("default via 10.0.0.1 dev eth0 proto static metric 100").is_some());
}

#[test]
fn conflicting_fwmark_rule_flags_other_table_only() {
    let ours = "0:\tfrom all lookup local\n200:\tfrom all fwmark 0x4 lookup 200";
    assert!(
        conflicting_fwmark_rule(ours, "0x4", "200").is_none(),
        "our own rule is not a conflict"
    );
    // the same mark, another table
    let foreign = "100:\tfrom all fwmark 0x4 lookup 999";
    assert!(conflicting_fwmark_rule(foreign, "0x4", "200").is_some());
    // another mark
    let other = "31729:\tnot from all fwmark 0xcc4d lookup 52301";
    assert!(conflicting_fwmark_rule(other, "0x4", "200").is_none());
    // a mask
    let masked = "100:\tfrom all fwmark 0x4/0xffffffff lookup 999";
    assert!(
        conflicting_fwmark_rule(masked, "0x4", "200").is_some(),
        "mask suffix must still match"
    );
}

#[test]
fn blackhole_floor_precedes_the_diversion_rule_and_no_flush_window() {
    let plan = plan_with(&route_gw(), wg0(), IpSet::new());
    let f = flat(&build(&plan).unwrap());
    let blackhole = f
        .iter()
        .position(|c| c.starts_with("route replace blackhole"))
        .expect("blackhole");
    let rule = f
        .iter()
        .position(|c| c.starts_with("rule add fwmark"))
        .expect("rule");
    assert!(
        blackhole < rule,
        "fail-closed floor must exist before diverting traffic: {f:?}"
    );
    assert!(
        !f.iter().any(|c| c.starts_with("route flush")),
        "no flush -> no empty-table leak window: {f:?}"
    );
}

#[test]
fn high_table_id_keeps_fixed_rule_priority() {
    let mut g = route_gw();
    g.table = Some(60000);
    let plan = plan_with(&g, wg0(), IpSet::new());
    let f = flat(&build(&plan).unwrap());
    assert!(
        f.iter()
            .any(|c| c == "rule add fwmark 0x4 table 60000 priority 100"),
        "priority must stay fixed (not the table id, which would fall after main): {f:?}"
    );
}

// ---------------------------------------------------------------------------

#[test]
fn whole_script_of_two_gateways() {
    let mut work = gw();
    work.name = "work-2".to_owned();
    work.mark = Some("5".to_owned());
    work.table = Some(201);
    work.local_subnets = vec!["10.1.2.3/8".to_owned(), "nonsense".to_owned()];
    let plan = plan_of(vec![
        routed(gw(), wg0(), ips(&["172.18.0.7", "fd00::1", "10.0.0.9"])),
        routed(work, Egress::NextHop(ip("10.0.0.1")), IpSet::new()),
    ]);
    let expected = concat_lines(&[
        "add table inet degc",
        "delete table inet degc",
        "table inet degc {",
        "    set degc_via_vpn {",
        "        type ipv4_addr",
        "        elements = { 10.0.0.9, 172.18.0.7 }",
        "    }",
        "    set degc_local_vpn {",
        "        type ipv4_addr",
        "        flags interval",
        "        elements = { 10.0.0.0/8 }",
        "    }",
        "    set degc_via6_vpn {",
        "        type ipv6_addr",
        "        elements = { fd00::1 }",
        "    }",
        "    set degc_local6_vpn {",
        "        type ipv6_addr",
        "        flags interval",
        "        elements = { fd00::/8 }",
        "    }",
        "    set degc_via_work_2 {",
        "        type ipv4_addr",
        "    }",
        "    set degc_local_work_2 {",
        "        type ipv4_addr",
        "        flags interval",
        "        elements = { 10.1.2.3/8 }",
        "    }",
        "    chain degc_mark {",
        "        type filter hook prerouting priority mangle; policy accept;",
        "        ip saddr @degc_via_vpn ip daddr != @degc_local_vpn meta mark set 0x4",
        "        ip saddr @degc_via_work_2 ip daddr != @degc_local_work_2 meta mark set 0x5",
        "    }",
        "    chain degc_snat {",
        "        type nat hook postrouting priority srcnat; policy accept;",
        "        meta mark 0x4 oifname \"wg0\" masquerade",
        "        meta mark 0x5 masquerade",
        "    }",
        "    chain degc_killswitch {",
        "        type filter hook forward priority filter; policy accept;",
        "        ip6 saddr @degc_via6_vpn ip6 daddr != @degc_local6_vpn drop",
        "        meta mark 0x4 oifname != \"wg0\" drop",
        "    }",
        "}",
    ]);
    assert_eq!(build_script(&plan).unwrap(), expected);
}

fn concat_lines(lines: &[&str]) -> String {
    let mut s = String::new();
    for l in lines {
        s.push_str(l);
        s.push('\n');
    }
    s
}

#[test]
fn empty_script() {
    assert_eq!(
        build_script(&plan_of(vec![])).unwrap(),
        concat_lines(&[
            "add table inet degc",
            "delete table inet degc",
            "table inet degc {",
            "    chain degc_mark {",
            "        type filter hook prerouting priority mangle; policy accept;",
            "    }",
            "    chain degc_killswitch {",
            "        type filter hook forward priority filter; policy accept;",
            "    }",
            "}",
        ])
    );
    assert!(build_script(&plan_of(vec![]))
        .unwrap()
        .starts_with(TEARDOWN_SCRIPT));
}

#[test]
fn rules_from_given_texts() {
    let source = RuleSource {
        mark: "0x9".to_owned(),
        name: "a.b".to_owned(),
        members4: vec!["M4".to_owned()],
        members6: vec!["M6".to_owned()],
        locals4: vec![],
        locals6: vec!["L6".to_owned()],
        snat: true,
        egress: Egress::Unavailable("no".to_owned()),
    };
    let r = gateway_rules(&source);
    assert_eq!(r.mark, "        ip saddr @degc_via_a_b meta mark set 0x9\n");
    assert_eq!(r.snat, "");
    assert_eq!(
        r.kill,
        "        ip6 saddr @degc_via6_a_b ip6 daddr != @degc_local6_a_b drop\n        meta mark 0x9 drop   # egress unavailable: no\n"
    );
    assert!(r.sets.contains("elements = { M4 }"));
    assert!(r.sets.contains("elements = { L6 }"));
    assert!(write_script(&vec![source]).contains(&r.kill));
}

#[test]
fn sets_and_exclusions() {
    assert_eq!(
        emit_set("n", "t", false, &vec![]),
        "    set n {\n        type t\n    }\n"
    );
    let two = vec!["a".to_owned(), "b".to_owned()];
    assert_eq!(
        emit_set("n", "t", true, &two),
        "    set n {\n        type t\n        flags interval\n        elements = { a, b }\n    }\n"
    );
    assert_eq!(
        excl_clause("n", "t", "ip daddr", &vec![]),
        (String::new(), String::new())
    );
    let (set, clause) = excl_clause("n", "t", "ip daddr", &two);
    assert!(set.contains("flags interval"));
    assert_eq!(clause, " ip daddr != @n");
}

#[test]
fn identifiers() {
    assert_eq!(sanitize("aZ_09"), "aZ_09");
    assert_eq!(sanitize("my-vpn.é x"), "my_vpn___x");
    assert_eq!(sanitize(&sanitize("a-b")), "a_b");
    assert_eq!(sanitize(""), "");
}

#[test]
fn private_ranges_stay_direct_by_default() {
    let mut g = gw();
    g.local_subnets = vec![];
    let s = build_script(&plan_with(&g, wg0(), IpSet::new())).unwrap();
    assert!(s.contains("elements = { 10.0.0.0/8, 172.16.0.0/12, 192.168.0.0/16 }"));
    // only IPv6 networks listed: nothing of IPv4 is excluded
    g.local_subnets = vec!["fd00::/8".to_owned()];
    let s = build_script(&plan_with(&g, wg0(), IpSet::new())).unwrap();
    assert!(s.contains("ip saddr @degc_via_vpn meta mark set 0x4"));
}

#[test]
fn bad_mark_stops_everything() {
    let mut g = gw();
    g.mark = Some("zz".to_owned());
    let e = ConfigError::BadMark {
        gateway: "vpn".to_owned(),
        mark: "zz".to_owned(),
    };
    let plan = plan_with(&g, wg0(), IpSet::new());
    assert_eq!(build_script(&plan).unwrap_err(), e);
    assert_eq!(build(&plan).unwrap_err(), e);
    assert_eq!(compile(&plan).unwrap_err(), e);
    assert_eq!(teardown(&Gateways(vec![g])).unwrap_err(), e);
}

#[test]
fn all_commands_of_a_next_hop() {
    let cmds = build(&plan_with(
        &route_gw(),
        Egress::NextHop(ip("2001:DB8::0:1")),
        IpSet::new(),
    ))
    .unwrap();
    assert_eq!(
        flat(&cmds),
        [
            "route replace blackhole default table 200 proto 194 metric 9999",
            "rule add fwmark 0x4 table 200 priority 100",
            "route replace default via 2001:db8::1 table 200 proto 194 metric 1",
        ]
    );
    assert_eq!(
        cmds.iter().map(|c| c.ignore_fail).collect::<Vec<_>>(),
        [false, true, false]
    );
    assert_eq!(
        flat(&gateway_commands(4, 7, &Egress::NextHop(ip("10.0.0.1")), "HOP"))[2],
        "route replace default via HOP table 7 proto 194 metric 1"
    );
    assert_eq!((RT_PROTO, RULE_PRIORITY), ("194", "100"));
}

#[test]
fn commands_of_two_gateways_do_not_mix() {
    let mut b = route_gw();
    b.name = "b".to_owned();
    b.mark = Some("5".to_owned());
    b.table = Some(201);
    let f = flat(
        &build(&plan_of(vec![
            routed(route_gw(), wg0(), IpSet::new()),
            routed(b, Egress::Unavailable("x".to_owned()), IpSet::new()),
        ]))
        .unwrap(),
    );
    assert_eq!(f.len(), 6);
    assert!(f[..3].iter().all(|c| c.contains("table 200")));
    assert!(f[3..].iter().all(|c| c.contains("table 201")));
    assert_eq!(f[4], "rule add fwmark 0x5 table 201 priority 100");
}

#[test]
fn first_foreign_route_is_named() {
    let routes = "\n  \n default proto 194\r\n  10.0.0.0/8 dev eth1  \nother\n";
    assert_eq!(
        foreign_route(routes),
        Some("10.0.0.0/8 dev eth1".to_owned())
    );
}

#[test]
fn conflicting_rules_are_named() {
    let rules = "0:\tfrom all lookup local\n 7:\tfrom all fwmark 0x4 \n";
    assert_eq!(
        conflicting_fwmark_rule(rules, "0x4", "200"),
        Some("7:\tfrom all fwmark 0x4".to_owned()),
        "a rule that looks nothing up is someone else's"
    );
    assert_eq!(conflicting_fwmark_rule("7: fwmark", "0x4", "200"), None);
    assert_eq!(
        conflicting_fwmark_rule("7: fwmark 0x44 lookup 1", "0x4", "200"),
        None
    );
}

#[test]
fn preflight_of_several_gateways() {
    let guards = vec![("0x4".to_owned(), 200), ("0x5".to_owned(), 201)];
    let ours = "100: from all fwmark 0x4 lookup 200\n100: from all fwmark 0x5 lookup 201\n";
    let tagged = "default dev wg0 proto 194\n".to_owned();
    assert_eq!(preflight(&guards, ours, &vec![tagged.clone()]), Ok(()));
    assert_eq!(preflight(&guards, "", &vec![]), Ok(()));
    let foreign = "default dev eth0".to_owned();
    assert_eq!(
        preflight(&guards, ours, &vec![tagged.clone(), foreign.clone()]),
        Err(Collision::Table {
            table: 201,
            route: foreign.clone()
        })
    );
    let taken = "1: from all fwmark 0x5 lookup 9";
    assert_eq!(
        preflight(&guards, taken, &vec![]),
        Err(Collision::Mark {
            mark: "0x5".to_owned(),
            rule: taken.to_owned()
        })
    );
    // the route comes first
    assert!(matches!(
        check_guard("0x5", 201, taken, &foreign),
        Err(Collision::Table { .. })
    ));
    assert!(check_guard("0x5", 9, taken, "").is_ok());
}

#[test]
fn collisions_have_messages() {
    let c = Collision::Table {
        table: 7,
        route: "a \"b\"".to_owned(),
    };
    assert_eq!(
        c.message(),
        "routing table 7 already holds a non-degc route (\"a \\\"b\\\"\"); refusing to touch it — set a free `table` for this gateway"
    );
    assert!(c.message_with("Q").contains("(Q)"));
    let c = Collision::Mark {
        mark: "0x4".to_owned(),
        rule: "r".to_owned(),
    };
    assert_eq!(
        c.message(),
        "fwmark 0x4 is already routed elsewhere (\"r\"); set a free `mark` for this gateway"
    );
}

fn desired() -> Desired {
    let mut plan = plan_with(&route_gw(), wg0(), ips(&["10.0.0.9"]));
    plan.unresolved = vec![("a\"b".to_owned(), "nope".to_owned())];
    compile(&plan).unwrap()
}

#[test]
fn desired_state_and_its_text() {
    let d = desired();
    assert_eq!(d.guards, vec![("0x4".to_owned(), 200)]);
    assert_eq!(
        d.warnings,
        ["container \"a\\\"b\" opted into gateway \"nope\" — no such gateway (not routed)"]
    );
    assert_eq!(
        unknown_gateway_message("C", "G"),
        "container C opted into gateway G — no such gateway (not routed)"
    );
    let s = d.render();
    let mut expected = "# degc desired host state\n".to_owned();
    expected.push_str("# WARNING: ");
    expected.push_str(&d.warnings[0]);
    expected.push_str("\n# --- nftables (nft -f -) ---\n");
    expected.push_str(&d.nft);
    expected.push_str("# --- routing (ip) ---\n");
    expected.push_str("ip route replace blackhole default table 200 proto 194 metric 9999\n");
    expected.push_str("ip rule add fwmark 0x4 table 200 priority 100    # ok if absent\n");
    expected.push_str("ip route replace default dev wg0 table 200 proto 194 metric 1\n");
    assert_eq!(s, expected);
}

#[test]
fn shared_routing_is_refused() {
    let mut b = route_gw();
    b.name = "b".to_owned();
    b.mark = Some("5".to_owned());
    let plan = plan_of(vec![
        routed(route_gw(), wg0(), IpSet::new()),
        routed(b, wg0(), IpSet::new()),
    ]);
    assert_eq!(
        compile(&plan),
        Err(ConfigError::SameTable {
            first: "vpn".to_owned(),
            second: "b".to_owned(),
            table: 200
        })
    );
}

#[test]
fn backends() {
    assert!(matches!(select(true), Backend::DryRun(_)));
    assert!(matches!(select(false), Backend::System(_)));
    assert_eq!(select(true).label(), "dry-run");
    assert_eq!(select(false).label(), "system (nft + ip)");
    assert_eq!(DryRunEnforcer.label(), "dry-run");
    let d = desired();
    assert_eq!(SystemEnforcer.apply(&d).stage, Stage::Rules);
    assert_eq!(select(false).apply(&d), Run::system(&d));
    assert_eq!(select(true).apply(&d), Run::dry(&d));
}

#[test]
fn dry_run_only_logs() {
    let d = desired();
    let mut run = select(true).apply(&d);
    let mut text = "dry-run — would apply:\n".to_owned();
    text.push_str(&d.render());
    assert_eq!(run.action(), Some(Action::Log(text)));
    assert_eq!(run.step(Event::Shown("x".to_owned())), Ok(()));
    assert!(run.action().is_some(), "not an answer");
    assert_eq!(run.step(Event::Logged), Ok(()));
    assert_eq!(run.action(), None);
    assert_eq!(run.stage, Stage::Done);
}

#[test]
fn programming_goes_in_order() {
    let d = desired();
    let mut run = select(false).apply(&d);
    assert_eq!(run.action(), Some(Action::ShowRules));
    run.step(Event::Shown(String::new())).unwrap();
    assert_eq!(run.action(), Some(Action::ShowRoutes(200)));
    run.step(Event::Shown(String::new())).unwrap();
    assert_eq!(run.action(), Some(Action::Nft(d.nft.clone())));
    run.step(exited(true, "")).unwrap();
    for (k, c) in d.ip.iter().enumerate() {
        assert_eq!(run.action(), Some(Action::Ip(c.clone())), "command {k}");
        run.step(exited(!c.ignore_fail, "exists")).unwrap();
    }
    assert_eq!(run.action(), None);
    assert_eq!(run.stage, Stage::Done);
    assert_eq!(run.step(exited(false, "")), Ok(()), "it is over");
}

#[test]
fn collision_stops_before_programming() {
    let mut run = Run::system(&desired());
    run.step(Event::Shown("1: fwmark 0x4 lookup 7".to_owned()))
        .unwrap();
    let e = run.step(Event::Shown(String::new())).unwrap_err();
    assert!(matches!(
        e,
        RunError::Collision(Collision::Mark { .. })
    ));
    assert!(e.message().starts_with("fwmark 0x4 is already routed"));
    assert_eq!(run.stage, Stage::Failed);
    assert_eq!(run.action(), None);
}

#[test]
fn failures_of_programs() {
    let d = desired();
    let at_script = || {
        let mut run = Run::system(&d);
        run.step(Event::Shown(String::new())).unwrap();
        run.step(Event::Shown(String::new())).unwrap();
        run
    };
    let mut run = at_script();
    let e = run.step(exited(false, " syntax error\n")).unwrap_err();
    assert_eq!(e, RunError::Rejected("syntax error".to_owned()));
    assert_eq!(e.message(), "nft -f rejected the ruleset: syntax error");

    let mut run = at_script();
    let e = run.step(Event::NotRun("no nft".to_owned())).unwrap_err();
    assert_eq!(e.message(), "no nft");

    let mut run = at_script();
    run.step(exited(true, "")).unwrap();
    let e = run.step(exited(false, "denied\n")).unwrap_err();
    assert_eq!(
        e.message(),
        "`ip route replace blackhole default table 200 proto 194 metric 9999` failed: denied"
    );
    assert!(matches!(e, RunError::IpFailed { .. }));

    let mut run = at_script();
    run.step(exited(true, "")).unwrap();
    run.step(exited(true, "")).unwrap();
    let e = run.step(Event::NotRun("no ip".to_owned())).unwrap_err();
    assert_eq!(
        e.message(),
        "spawning `ip rule add fwmark 0x4 table 200 priority 100` (is iproute2 installed?): no ip",
        "even a command that may fail must be run"
    );
    assert!(matches!(e, RunError::IpNotRun { .. }));
}

#[test]
fn removing_everything() {
    let mut run = down(&Gateways(vec![route_gw()]));
    assert_eq!(run.action(), Some(Action::Nft(TEARDOWN_SCRIPT.to_owned())));
    run.step(exited(true, "")).unwrap();
    let mut seen = vec![];
    while let Some(Action::Ip(c)) = run.action() {
        seen.push(c.args.join(" "));
        run.step(exited(false, "nothing there")).unwrap();
    }
    assert_eq!(
        seen,
        [
            "rule del fwmark 0x4 table 200",
            "route flush table 200 proto 194"
        ]
    );
    assert_eq!(run.stage, Stage::Done);

    // without gateways only the table goes
    let mut run = down(&Gateways::default());
    run.step(exited(true, "")).unwrap();
    assert_eq!(run.stage, Stage::Done);

    // a mark that cannot be read is noticed after the table is gone
    let mut g = route_gw();
    g.mark = Some("zz".to_owned());
    let mut run = down(&Gateways(vec![g]));
    let e = run.step(exited(true, "")).unwrap_err();
    assert!(matches!(e, RunError::Config(ConfigError::BadMark { .. })));
    assert_eq!(e.message(), "gateway vpn: bad mark \"zz\": not a u32: \"zz\"");
}

#[test]
fn removal_clears_declared_gateways_too() {
    let mut labels = Labels::new();
    labels.insert("degc.gateway".to_owned(), "work".to_owned());
    labels.insert("degc.gateway.mark".to_owned(), "0x9".to_owned());
    labels.insert("degc.gateway.table".to_owned(), "209".to_owned());
    let targets = vec![Target {
        name: "gw".to_owned(),
        labels,
        networks: TextMap::new(),
    }];
    let config = Gateways(vec![route_gw()]);
    let mut run = down_all(&targets, "degc", &config);
    let done = Event::Exited {
        success: true,
        stderr: String::new(),
    };
    assert_eq!(run.action(), Some(Action::Nft(TEARDOWN_SCRIPT.to_owned())));
    run.step(done).unwrap();
    let mut seen = vec![];
    while let Some(Action::Ip(c)) = run.action() {
        seen.push(c.args.join(" "));
        run.step(Event::Exited {
            success: true,
            stderr: String::new(),
        })
        .unwrap();
    }
    assert_eq!(
        seen,
        [
            "rule del fwmark 0x4 table 200",
            "route flush table 200 proto 194",
            "rule del fwmark 0x9 table 209",
            "route flush table 209 proto 194",
        ]
    );
    assert_eq!(run.action(), None);
    // under another prefix the container declares nothing
    assert_eq!(
        down_all(&targets, "other", &config).action(),
        down(&config).action()
    );
}
