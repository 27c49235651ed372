use degc::api::v1alpha1::{
    parse_gateways, parse_selector_label, ConfigError, Egress as CfgEgress, Gateway, Gateways,
    Labels, Selector,
};
use degc::docker::Target;
use degc::net::IpAddr;
use degc::ordered::TextMap;
use degc::plan::{
    assemble, compile, discovery_message, find_declarations, gateway_container_ip, merge,
    resolve_egress, resolve_egress_with, role, Egress, Role,
};
use serde_yaml_ng::Value;

fn ip(s: &str) -> IpAddr {
    IpAddr::parse(s).unwrap()
}

fn labels(pairs: &[(&str, &str)]) -> Labels {
    let mut l = Labels::new();
    for (k, v) in pairs {
        l.insert((*k).to_owned(), (*v).to_owned());
    }
    l
}

fn target(name: &str, addr: &str, pairs: &[(&str, &str)]) -> Target {
    let mut networks = TextMap::new();
    networks.insert("services".to_owned(), vec![ip(addr)]);
    Target {
        name: name.to_owned(),
        labels: labels(pairs),
        networks,
    }
}

fn text_of(v: &Value) -> Result<String, String> {
    v.as_str()
        .map(ToOwned::to_owned)
        .ok_or_else(|| format!("not a string: {v:?}"))
}

fn selector_of(v: &Value) -> Result<Selector, String> {
    let mut s = Selector::new();
    for (k, v) in v.as_mapping().ok_or("selector is no mapping")? {
        s.insert(text_of(k)?, text_of(v)?);
    }
    Ok(s)
}

fn list_of<T>(v: &Value, one: impl Fn(&Value) -> Result<T, String>) -> Result<Vec<T>, String> {
    v.as_sequence().ok_or("not a list")?.iter().map(one).collect()
}

fn egress_of(v: &Value) -> Result<CfgEgress, String> {
    let mut e = CfgEgress::default();
    for (k, v) in v.as_mapping().ok_or("egress is no mapping")? {
        match text_of(k)?.as_str() {
            "interface" => e.interface = Some(text_of(v)?),
            "container" => e.container = Some(text_of(v)?),
            "nextHop" => e.next_hop = Some(text_of(v)?),
            other => return Err(format!("unknown field {other}")),
        }
    }
    Ok(e)
}

fn gateway_of(v: &Value) -> Result<Gateway, String> {
    let mut name = None;
    let mut egress = None;
    let mut g = gateway("");
    for (k, v) in v.as_mapping().ok_or("gateway is no mapping")? {
        match text_of(k)?.as_str() {
            "name" => name = Some(text_of(v)?),
            "egress" => egress = Some(egress_of(v)?),
            "snat" => g.snat = Some(v.as_bool().ok_or("snat")?),
            "mark" => g.mark = Some(text_of(v)?),
            "table" => g.table = Some(u32::try_from(v.as_u64().ok_or("table")?).unwrap()),
            "default" => g.default = v.as_bool().ok_or("default")?,
            "localSubnets" => g.local_subnets = list_of(v, text_of)?,
            "members" => g.members = list_of(v, selector_of)?,
            other => return Err(format!("unknown field {other}")),
        }
    }
    g.name = name.ok_or("missing name")?;
    g.egress = egress.ok_or("missing egress")?;
    Ok(g)
}

fn document(text: &str) -> Result<Vec<Gateway>, String> {
    let v: Value = serde_yaml_ng::from_str(text).map_err(|e| e.to_string())?;
    list_of(&v, gateway_of)
}

fn parse(text: &str) -> Result<Gateways, ConfigError> {
    parse_gateways(document(text))
}

fn gateway(name: &str) -> Gateway {
    Gateway {
        name: name.to_owned(),
        egress: CfgEgress::default(),
        snat: None,
        mark: None,
        table: None,
        default: false,
        local_subnets: vec![],
        members: vec![],
    }
}

fn via_interface(name: &str, interface: &str) -> Gateway {
    let mut g = gateway(name);
    g.egress.interface = Some(interface.to_owned());
    g
}

fn via_container(name: &str, container: &str) -> Gateway {
    let mut g = gateway(name);
    g.egress.container = Some(container.to_owned());
    g
}

fn with_members(mut g: Gateway, selectors: &[&str]) -> Gateway {
    g.members = selectors.iter().map(|s| parse_selector_label(s)).collect();
    g
}

fn valid(list: Vec<Gateway>) -> Gateways {
    parse_gateways(Ok(list)).unwrap()
}

#[test]
fn members_collected_per_gateway() {
    let gws = parse(
        "- name: vpn\n  egress: {interface: wg0}\n  mark: '0x4'\n  table: 200\n",
    )
    .unwrap();
    let targets = vec![
        target("a", "172.18.0.7", &[("degc.enable", "true")]),
        target(
            "b",
            "172.18.0.8",
            &[("degc.enable", "true"), ("degc.via", "vpn")],
        ),
        target("c", "172.18.0.9", &[]),
        target(
            "d",
            "172.18.0.10",
            &[("degc.enable", "true"), ("degc.via", "nope")],
        ),
    ];
    let plan = compile(&targets, "degc", &gws);
    assert_eq!(plan.gateways[0].members.len(), 2);
    assert_eq!(plan.gateways[0].egress, Egress::Interface("wg0".to_owned()));
    assert_eq!(plan.unresolved, vec![("d".to_owned(), "nope".to_owned())]);
}

#[test]
fn container_egress_resolves_live_ip_or_fails_closed() {
    let gws = parse(
        "- name: gw\n  egress: {container: gluetun}\n  mark: '4'\n  table: 200\n",
    )
    .unwrap();

    // it runs: its current address
    let up = vec![target(
        "gluetun",
        "172.18.0.50",
        &[("com.docker.compose.service", "gluetun")],
    )];
    assert_eq!(
        compile(&up, "degc", &gws).gateways[0].egress,
        Egress::NextHop(ip("172.18.0.50"))
    );

    // it does not: unavailable
    let down: Vec<Target> = vec![];
    assert!(matches!(
        compile(&down, "degc", &gws).gateways[0].egress,
        Egress::Unavailable(_)
    ));
}

#[test]
fn gateway_container_self_declares_via_label() {
    let gws = Gateways::default();
    let targets = vec![
        target(
            "gluetun",
            "172.18.0.24",
            &[
                ("degc.gateway", "vpn"),
                ("com.docker.compose.service", "vpn-gw"),
            ],
        ),
        target(
            "app",
            "172.18.0.30",
            &[("degc.enable", "true"), ("degc.via", "vpn")],
        ),
    ];
    let plan = compile(&targets, "degc", &gws);
    assert_eq!(plan.gateways.len(), 1);
    let gp = &plan.gateways[0];
    assert_eq!(gp.gateway.name, "vpn");
    assert_eq!(gp.egress, Egress::NextHop(ip("172.18.0.24")));
    assert_eq!(
        gp.members.len(),
        1,
        "the app is routed via the discovered gateway"
    );
    assert!(plan.unresolved.is_empty());
}

#[test]
fn selector_selects_members_without_optin() {
    let gws = parse(
        "- name: vpn\n  egress: {interface: wg0}\n  members:\n    - com.docker.compose.service: sabnzbd\n",
    )
    .unwrap();
    let targets = vec![
        target(
            "sab",
            "172.18.0.5",
            &[("com.docker.compose.service", "sabnzbd")],
        ),
        target(
            "plex",
            "172.18.0.6",
            &[("com.docker.compose.service", "plex")],
        ),
    ];
    let plan = compile(&targets, "degc", &gws);
    assert_eq!(
        plan.gateways[0].members.len(),
        1,
        "selector-matched app routed"
    );
    assert!(plan.gateways[0].member_names.contains("sab"));
    assert!(plan.unresolved.is_empty() && plan.conflicts.is_empty());
}

#[test]
fn explicit_optin_wins_over_selector() {
    let gws = parse(
        "- name: vpn\n  egress: {interface: wg0}\n  members:\n    - vpn: 'true'\n- name: work\n  egress: {interface: wg1}\n",
    )
    .unwrap();
    let t = vec![target(
        "app",
        "172.18.0.5",
        &[
            ("vpn", "true"),
            ("degc.enable", "true"),
            ("degc.via", "work"),
        ],
    )];
    let plan = compile(&t, "degc", &gws);
    let vpn = plan
        .gateways
        .iter()
        .find(|g| g.gateway.name == "vpn")
        .unwrap();
    let work = plan
        .gateways
        .iter()
        .find(|g| g.gateway.name == "work")
        .unwrap();
    assert_eq!(vpn.members.len(), 0, "selector yields to explicit opt-in");
    assert_eq!(work.members.len(), 1);
}

#[test]
fn ambiguous_selector_is_conflict_not_routed() {
    let gws = parse(
        "- name: vpn\n  egress: {interface: wg0}\n  members:\n    - app: 'yes'\n- name: work\n  egress: {interface: wg1}\n  members:\n    - app: 'yes'\n",
    )
    .unwrap();
    let t = vec![target("x", "172.18.0.5", &[("app", "yes")])];
    let plan = compile(&t, "degc", &gws);
    assert!(
        plan.gateways.iter().all(|g| g.members.is_empty()),
        "not routed on ambiguity"
    );
    assert_eq!(plan.conflicts.len(), 1);
    assert_eq!(plan.conflicts[0].0, "x");
}

#[test]
fn gateway_container_is_not_its_own_member() {
    let gws = parse(
        "- name: work\n  egress: {interface: wg1}\n  members:\n    - kind: 'router'\n",
    )
    .unwrap();
    let targets = vec![target(
        "gw",
        "172.18.0.24",
        &[
            ("degc.gateway", "vpn"),
            ("kind", "router"),
            ("com.docker.compose.service", "vpn-gw"),
        ],
    )];
    let plan = compile(&targets, "degc", &gws);
    let work = plan
        .gateways
        .iter()
        .find(|g| g.gateway.name == "work")
        .unwrap();
    assert!(
        work.members.is_empty(),
        "a gateway container is never a member"
    );
}

#[test]
fn gateway_label_defines_and_selects() {
    let gws = Gateways::default();
    let targets = vec![
        target(
            "gw",
            "172.18.0.24",
            &[
                ("degc.gateway", "vpn"),
                ("degc.gateway.members", "vpn=true"),
                ("com.docker.compose.service", "vpn-gw"),
            ],
        ),
        target("app", "172.18.0.30", &[("vpn", "true")]),
    ];
    let plan = compile(&targets, "degc", &gws);
    let vpn = plan
        .gateways
        .iter()
        .find(|g| g.gateway.name == "vpn")
        .unwrap();
    assert_eq!(vpn.members.len(), 1, "label-selector routed the app");
    assert!(vpn.member_names.contains("app"));
    assert!(plan.discovery_errors.is_empty());
}

#[test]
fn discovered_knob_labels_reflected() {
    let gws = Gateways::default();
    let targets = vec![target(
        "gw",
        "172.18.0.24",
        &[
            ("degc.gateway", "vpn"),
            ("degc.gateway.snat", "true"),
            ("degc.gateway.table", "222"),
        ],
    )];
    let plan = compile(&targets, "degc", &gws);
    let gp = &plan.gateways[0];
    assert_eq!(gp.gateway.table_id(), 222);
    assert!(gp.gateway.snat_enabled());
    assert!(plan.discovery_errors.is_empty());
}

#[test]
fn malformed_knob_drops_gateway_surfaced() {
    let gws = Gateways::default();
    let targets = vec![target(
        "gw",
        "172.18.0.24",
        &[
            ("degc.gateway", "vpn"),
            ("degc.gateway.table", "notanumber"),
        ],
    )];
    let plan = compile(&targets, "degc", &gws);
    assert!(plan.gateways.is_empty(), "malformed gateway dropped");
    assert_eq!(plan.discovery_errors.len(), 1);
}

// ---------------------------------------------------------------------------

#[test]
fn dropped_gateway_says_why() {
    let targets = vec![target(
        "g\"w",
        "172.18.0.24",
        &[("degc.gateway", "vpn"), ("degc.gateway.table", "x")],
    )];
    let plan = compile(&targets, "degc", &Gateways::default());
    assert_eq!(
        plan.discovery_errors,
        ["gateway container \"g\\\"w\": gateway \"vpn\": bad table label \"x\": invalid digit found in string"]
    );
    assert_eq!(discovery_message("Q", "why"), "gateway container Q: why");
}

#[test]
fn configured_gateway_wins_over_a_declared_one() {
    let gws = valid(vec![via_interface("vpn", "wg0")]);
    let targets = vec![
        target("gw", "172.18.0.24", &[("degc.gateway", "vpn")]),
        target("gw2", "172.18.0.25", &[("degc.gateway", "two")]),
        target("gw3", "172.18.0.26", &[("degc.gateway", "two")]),
    ];
    let plan = compile(&targets, "degc", &gws);
    assert_eq!(plan.gateways.len(), 2);
    assert_eq!(plan.gateways[0].egress, Egress::Interface("wg0".to_owned()));
    assert_eq!(plan.gateways[1].gateway.name, "two");
    assert_eq!(
        plan.gateways[1].egress,
        Egress::NextHop(ip("172.18.0.25")),
        "the earlier declaration wins"
    );
}

#[test]
fn merging_given_declarations() {
    let targets = vec![
        target("a", "172.18.0.1", &[("degc.gateway", "x")]),
        target(
            "b",
            "172.18.0.2",
            &[("degc.gateway", "y"), ("degc.gateway.mark", "0")],
        ),
        target("c", "172.18.0.3", &[]),
    ];
    let decls = find_declarations(&targets, "degc");
    assert_eq!(decls.len(), 2);
    assert_eq!(decls[0].container, "a");
    assert_eq!(decls[1].name, "y");
    let (gws, dropped) = merge(Gateways::default(), decls);
    assert_eq!(gws.0.len(), 1);
    assert_eq!(
        dropped,
        vec![(
            "b".to_owned(),
            ConfigError::ZeroMark {
                gateway: "y".to_owned()
            }
        )]
    );
}

#[test]
fn roles() {
    let gws = valid(vec![
        with_members(via_interface("vpn", "wg0"), &["a=1", "b=2"]),
        with_members(via_interface("work", "wg1"), &["b=2"]),
    ]);
    let of = |pairs: &[(&str, &str)]| role("degc", &gws, &labels(pairs));
    assert_eq!(of(&[]), Role::Unmanaged);
    assert_eq!(of(&[("a", "1")]), Role::Member("vpn".to_owned()));
    assert_eq!(
        of(&[("b", "2")]),
        Role::Conflict(vec!["vpn".to_owned(), "work".to_owned()])
    );
    assert_eq!(
        of(&[("b", "2"), ("degc.enable", "true"), ("degc.via", "work")]),
        Role::Member("work".to_owned())
    );
    assert_eq!(
        of(&[("degc.enable", "true")]),
        Role::Unresolved("<default>".to_owned())
    );
    assert_eq!(
        of(&[("degc.enable", "true"), ("degc.gateway", "me")]),
        Role::Gateway
    );
}

#[test]
fn next_hops_are_resolved() {
    let targets = vec![];
    let mut g = gateway("x");
    g.egress.next_hop = Some("10.0.0.1".to_owned());
    assert_eq!(
        resolve_egress(&g, &targets),
        Egress::NextHop(ip("10.0.0.1"))
    );
    g.egress.next_hop = Some("no\nhop".to_owned());
    assert_eq!(
        resolve_egress(&g, &targets),
        Egress::Unavailable("nextHop \"no\\nhop\" is not an IP".to_owned())
    );
    assert_eq!(
        resolve_egress_with(&g, &targets, Some(ip("10.0.0.2")), "Q"),
        Egress::NextHop(ip("10.0.0.2"))
    );
    assert_eq!(
        resolve_egress(&gateway("x"), &targets),
        Egress::Unavailable("no egress configured".to_owned())
    );
    assert_eq!(
        resolve_egress(&via_container("x", "gone"), &targets),
        Egress::Unavailable("gateway container \"gone\" not running".to_owned())
    );
}

#[test]
fn gateway_container_without_ipv4_is_unavailable() {
    let six = target("gw", "fd00::1", &[]);
    assert_eq!(gateway_container_ip("gw", &vec![six]), None);
    let mut both = target("gw", "fd00::1", &[]);
    both.networks
        .insert("a".to_owned(), vec![ip("fd00::2"), ip("10.0.0.9")]);
    both.networks.insert("z".to_owned(), vec![ip("10.0.0.8")]);
    assert_eq!(
        both.addresses(),
        [ip("fd00::2"), ip("10.0.0.9"), ip("fd00::1"), ip("10.0.0.8")]
    );
    assert_eq!(
        gateway_container_ip("gw", &vec![both]),
        Some(ip("10.0.0.9"))
    );
}

#[test]
fn first_match_by_name_or_service() {
    let targets = vec![
        target("x", "10.0.0.1", &[("com.docker.compose.service", "gw")]),
        target("gw", "10.0.0.2", &[]),
    ];
    assert_eq!(gateway_container_ip("gw", &targets), Some(ip("10.0.0.1")));
    assert_eq!(gateway_container_ip("x", &targets), Some(ip("10.0.0.1")));
    assert_eq!(gateway_container_ip("y", &targets), None);
}

#[test]
fn members_of_gateways_with_one_name() {
    // not a valid set; the first of the name gets the members
    let gws = Gateways(vec![via_interface("vpn", "wg0"), via_interface("vpn", "wg1")]);
    let targets = vec![target(
        "a",
        "172.18.0.7",
        &[("degc.enable", "true"), ("degc.via", "vpn")],
    )];
    let plan = assemble(
        &targets,
        "degc",
        gws,
        vec![
            Egress::Interface("wg0".to_owned()),
            Egress::Interface("wg1".to_owned()),
        ],
        vec!["e".to_owned()],
    );
    assert_eq!(plan.gateways[0].members.len(), 1);
    assert_eq!(plan.gateways[1].members.len(), 0);
    assert!(plan.gateways[1].member_names.is_empty());
    assert_eq!(plan.discovery_errors, ["e"]);
}

#[test]
fn every_container_goes_one_way() {
    let gws = valid(vec![
        with_members(via_interface("vpn", "wg0"), &["v=1"]),
        with_members(via_interface("work", "wg1"), &["w=1"]),
    ]);
    let targets = vec![
        target("a", "10.0.0.1", &[("v", "1")]),
        target("b", "10.0.0.2", &[("w", "1")]),
        target("c", "10.0.0.3", &[("v", "1"), ("w", "1")]),
        target("d", "10.0.0.4", &[("degc.enable", "true")]),
        target("e", "10.0.0.5", &[]),
    ];
    let plan = compile(&targets, "degc", &gws);
    let (vpn, work) = (&plan.gateways[0], &plan.gateways[1]);
    assert!(vpn.member_names.contains("a") && vpn.member_names.len() == 1);
    assert!(work.member_names.contains("b") && work.member_names.len() == 1);
    assert_eq!(
        plan.conflicts,
        vec![(
            "c".to_owned(),
            vec!["vpn".to_owned(), "work".to_owned()]
        )]
    );
    assert_eq!(
        plan.unresolved,
        vec![("d".to_owned(), "<default>".to_owned())]
    );
    assert_eq!(vpn.members.elements(), &vec![ip("10.0.0.1")]);
}

#[test]
fn explicit_via_settles_a_conflict() {
    let gws = parse(
        "- name: vpn\n  egress: {interface: wg0}\n  members:\n    - app: 'yes'\n- name: work\n  egress: {interface: wg1}\n  members:\n    - app: 'yes'\n- name: other\n  egress: {interface: wg2}\n",
    )
    .unwrap();
    let t = vec![
        target("x", "172.18.0.5", &[("app", "yes"), ("degc.via", "work")]),
        target("y", "172.18.0.6", &[("app", "yes"), ("degc.via", "other")]),
        target("z", "172.18.0.7", &[("degc.via", "work")]),
    ];
    let plan = compile(&t, "degc", &gws);
    assert!(plan.gateways[0].members.is_empty());
    assert_eq!(plan.gateways[1].members.elements(), &vec![ip("172.18.0.5")]);
    assert!(plan.gateways[2].members.is_empty(), "it does not claim y");
    assert_eq!(
        plan.conflicts,
        vec![(
            "y".to_owned(),
            vec!["vpn".to_owned(), "work".to_owned()]
        )]
    );
    assert!(plan.unresolved.is_empty());
}

#[test]
fn malformed_flags_drop_the_gateway() {
    let targets = vec![target(
        "gw",
        "172.18.0.24",
        &[("degc.gateway", "vpn"), ("degc.gateway.snat", "yes")],
    )];
    let plan = compile(&targets, "degc", &Gateways::default());
    assert!(plan.gateways.is_empty());
    assert_eq!(
        plan.discovery_errors,
        ["gateway container \"gw\": gateway \"vpn\": bad snat label \"yes\": neither true nor false"]
    );
}

#[test]
fn the_prefix_is_a_setting() {
    let gws = valid(vec![via_interface("vpn", "wg0")]);
    let targets = vec![target("a", "10.0.0.1", &[("other.enable", "true")])];
    assert_eq!(compile(&targets, "degc", &gws).gateways[0].members.len(), 0);
    assert_eq!(compile(&targets, "other", &gws).gateways[0].members.len(), 1);
}
