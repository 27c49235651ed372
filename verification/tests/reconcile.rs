use degc::api::v1alpha1::{ConfigError, Egress as CfgEgress, Gateway, Gateways, Labels};
use degc::docker::Target;
use degc::enforce::{compile, select, Desired};
use degc::net::IpAddr;
use degc::ordered::{IpSet, TextMap};
use degc::plan::{Egress, GatewayPlan, Plan};
use degc::reconcile::{
    conflict_message, gateway_summary, log_after, log_before, plan_summary, prepare, report, stats,
    status, sum_up, unresolved_message, write_status, Level, Line,
};

fn ip(s: &str) -> IpAddr {
    IpAddr::parse(s).unwrap()
}

fn gateway(name: &str, mark: &str, table: u32) -> Gateway {
    Gateway {
        name: name.to_owned(),
        egress: CfgEgress {
            interface: Some("wg0".to_owned()),
            container: None,
            next_hop: None,
        },
        snat: None,
        mark: Some(mark.to_owned()),
        table: Some(table),
        default: false,
        local_subnets: vec![],
        members: vec![],
    }
}

fn routed(g: Gateway, egress: Egress, ips: &[&str], names: &[&str]) -> GatewayPlan {
    let mut members = IpSet::new();
    for a in ips {
        members.insert(ip(a));
    }
    let mut member_names = TextMap::new();
    for n in names {
        member_names.insert((*n).to_owned(), ());
    }
    GatewayPlan {
        gateway: g,
        egress,
        members,
        member_names,
    }
}

fn sample() -> Plan {
    Plan {
        gateways: vec![
            routed(
                gateway("vpn", "0x4", 200),
                Egress::NextHop(ip("172.18.0.24")),
                &["10.0.0.1", "10.0.0.2", "fd00::2"],
                &["sonarr", "sabnzbd"],
            ),
            routed(
                gateway("w", "5", 201),
                Egress::Unavailable("gone".to_owned()),
                &[],
                &[],
            ),
        ],
        unresolved: vec![("a".to_owned(), "no\"pe".to_owned())],
        conflicts: vec![("c".to_owned(), vec!["x".to_owned(), "y".to_owned()])],
        discovery_errors: vec!["gateway container \"g\": bad".to_owned()],
    }
}

fn empty() -> Plan {
    Plan {
        gateways: vec![],
        unresolved: vec![],
        conflicts: vec![],
        discovery_errors: vec![],
    }
}

#[test]
fn summaries() {
    assert_eq!(plan_summary(&empty()), "no gateways");
    assert_eq!(
        plan_summary(&sample()),
        "vpn=via 172.18.0.24 members=3[sabnzbd,sonarr]  w=DOWN members=0[]  unresolved=1  conflicts=1  gatewayErrors=1"
    );
    let only = Plan {
        gateways: vec![routed(
            gateway("m", "1", 1),
            Egress::Interface("wg0".to_owned()),
            &["10.0.0.1"],
            &["a"],
        )],
        ..empty()
    };
    assert_eq!(plan_summary(&only), "m=dev wg0 members=1[a]");
    assert_eq!(
        gateway_summary(&only.gateways[0], "E"),
        "m=E members=1[a]"
    );
    assert_eq!(sum_up(vec![], 0, 2, 0), "conflicts=2");
    assert_eq!(sum_up(vec!["p".to_owned()], 1, 0, 3), "p  unresolved=1  gatewayErrors=3");
}

#[test]
fn reports_speak_up_only_on_change() {
    let p = sample();
    let d = compile(&p).unwrap();
    let first = report(&p, &d, &None);
    assert!(first.changed);
    assert_eq!(
        first.complaints,
        [
            "container \"a\" wants gateway \"no\\\"pe\" — no such gateway (not routed)",
            "container \"c\" matches multiple gateway selectors [\"x\", \"y\"] — not routed",
            "gateway container \"g\": bad",
        ]
    );
    assert_eq!(first.summary, plan_summary(&p));
    assert_eq!(first.fingerprint.nft, d.nft);
    assert_eq!(first.fingerprint.ip, d.ip);
    let last = Some(first.fingerprint);
    let again = report(&p, &d, &last);
    assert!(!again.changed);
    assert!(again.complaints.is_empty());
    assert_eq!(again.summary, first.summary);
    let none = empty();
    assert!(report(&none, &compile(&none).unwrap(), &last).changed);
}

#[test]
fn a_new_address_is_a_change() {
    let routing = |addr: &str| Plan {
        gateways: vec![routed(
            gateway("vpn", "0x4", 200),
            Egress::Interface("wg0".to_owned()),
            &[addr],
            &["app"],
        )],
        ..empty()
    };
    let (before, after) = (routing("172.18.0.5"), routing("172.18.0.6"));
    assert_eq!(plan_summary(&before), plan_summary(&after));
    let first = report(&before, &compile(&before).unwrap(), &None);
    let last = Some(first.fingerprint);
    let second = report(&after, &compile(&after).unwrap(), &last);
    assert!(second.changed);
    assert_eq!(second.fingerprint.summary, second.summary);
    assert!(last != Some(second.fingerprint));
}

#[test]
fn a_new_command_is_a_change() {
    let p = sample();
    let d = compile(&p).unwrap();
    let last = Some(report(&p, &d, &None).fingerprint);
    for change in [
        |d: &mut Desired| d.ip[0].ignore_fail = !d.ip[0].ignore_fail,
        |d: &mut Desired| d.ip[0].args[0] = "x".to_owned(),
        |d: &mut Desired| {
            d.ip.pop();
        },
        |d: &mut Desired| {
            d.ip[0].args.pop();
        },
    ] {
        let mut other = compile(&p).unwrap();
        change(&mut other);
        assert!(report(&p, &other, &last).changed);
    }
    assert!(!report(&p, &d, &last).changed);
}

fn lines(v: &[Line]) -> Vec<(Level, &str)> {
    v.iter().map(|l| (l.level, l.text.as_str())).collect()
}

#[test]
fn only_changes_are_logged_aloud() {
    let p = sample();
    let d = compile(&p).unwrap();
    let first = report(&p, &d, &None);
    assert_eq!(
        lines(&log_before(&select(false), &d, &first)),
        [(
            Level::Warn,
            "container \"a\" opted into gateway \"no\\\"pe\" — no such gateway (not routed)"
        )]
    );
    assert!(log_before(&select(true), &d, &first).is_empty());
    assert_eq!(
        lines(&log_after(&first)),
        [
            (Level::Info, plan_summary(&p).as_str()),
            (
                Level::Warn,
                "container \"a\" wants gateway \"no\\\"pe\" — no such gateway (not routed)"
            ),
            (
                Level::Warn,
                "container \"c\" matches multiple gateway selectors [\"x\", \"y\"] — not routed"
            ),
            (Level::Warn, "gateway container \"g\": bad"),
        ]
    );
    let again = report(&p, &d, &Some(first.fingerprint));
    assert!(log_before(&select(false), &d, &again).is_empty());
    assert_eq!(
        lines(&log_after(&again)),
        [(
            Level::Debug,
            format!("reconciled, no change: {}", plan_summary(&p)).as_str()
        )]
    );
}

#[test]
fn messages_from_quoted_names() {
    assert_eq!(
        unresolved_message("C", "G"),
        "container C wants gateway G — no such gateway"
    );
    assert_eq!(
        conflict_message("C", &vec!["G".to_owned(), "H".to_owned()]),
        "container C matches multiple gateway selectors [G, H] — not routed"
    );
}

#[test]
fn stats_count_containers() {
    let s = stats(&sample());
    assert_eq!(s.members, 2, "containers, not their three addresses");
    assert_eq!(
        s.gateways,
        vec![("vpn".to_owned(), true), ("w".to_owned(), false)]
    );
}

#[test]
fn status_text() {
    let (s, e) = status(&sample());
    assert_eq!(e, None);
    let head = [
        "# gateway vpn          egress=via 172.18.0.24  mark=0x4 table=200  members=3",
        "#   members: sabnzbd, sonarr",
        "# gateway w            egress=UNAVAILABLE (gone)  mark=0x5 table=201  members=0",
        "# WARNING: container \"a\" wants gateway \"no\\\"pe\" — no such gateway",
        "# WARNING: container \"c\" matches multiple gateway selectors [\"x\", \"y\"] — not routed (set degc.via)",
        "# WARNING: gateway container \"g\": bad",
        "# degc desired host state",
        "# WARNING: container \"a\" opted into gateway \"no\\\"pe\" — no such gateway (not routed)",
        "# --- nftables (nft -f -) ---",
        "add table inet degc",
    ]
    .join("\n");
    assert!(s.starts_with(&head), "{s}");
    assert!(s.ends_with(
        "ip route del default table 201 proto 194 metric 1    # ok if absent\n"
    ));
}

#[test]
fn status_of_what_cannot_be_compiled() {
    let mut p = sample();
    p.gateways[1].gateway.mark = Some("zz".to_owned());
    let (s, e) = status(&p);
    assert!(matches!(e, Some(ConfigError::BadMark { .. })));
    assert!(s.contains("mark=? table=201"));
    assert!(!s.contains("desired host state"));
    let long = routed(
        gateway("a-very-long-name", "1", 1),
        Egress::Interface("wg0".to_owned()),
        &[],
        &[],
    );
    assert_eq!(
        write_status(&long, "E"),
        "# gateway a-very-long-name egress=E  mark=0x1 table=1  members=0\n"
    );
}

#[test]
fn preparing() {
    let mut labels = Labels::new();
    labels.insert("degc.enable".to_owned(), "true".to_owned());
    let mut networks = TextMap::new();
    networks.insert("n".to_owned(), vec![ip("10.0.0.1")]);
    let targets = vec![Target {
        name: "app".to_owned(),
        labels,
        networks,
    }];
    let gws = Gateways(vec![gateway("vpn", "0x4", 200)]);
    let (plan, desired) = prepare(&targets, "degc", &gws).unwrap();
    assert!(plan.gateways[0].member_names.contains("app"));
    assert!(desired.nft.contains("elements = { 10.0.0.1 }"));
    let clash = Gateways(vec![gateway("a", "0x4", 200), gateway("b", "4", 201)]);
    assert!(matches!(
        prepare(&targets, "degc", &clash),
        Err(ConfigError::SameMark { .. })
    ));
}
