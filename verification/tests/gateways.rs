use degc::api::v1alpha1::error::ConfigError;
use degc::api::v1alpha1::{
    auto_mark, auto_table, check_unique_routing, declared_gateway, discovered_gateway, fnv1a,
    gateway_name, opt_in, parse_gateways, parse_mark, parse_selector_label, selector_matches,
    valid_ifname, Egress, Gateway, Gateways, Labels, Selector, VERSION,
};
use degc::net::Network;
use degc::text::NumberError;
use serde_yaml_ng::Value;

fn labels(pairs: &[(&str, &str)]) -> Labels {
    let mut l = Labels::new();
    for (k, v) in pairs {
        l.insert((*k).to_owned(), (*v).to_owned());
    }
    l
}

fn text_of(v: &Value) -> Result<String, String> {
    v.as_str()
        .map(ToOwned::to_owned)
        .ok_or_else(|| format!("not a string: {v:?}"))
}

fn selector_of(v: &Value) -> Result<Selector, String> {
    let mut s = Selector::new();
    for (k, v) in v.as_mapping().ok_or("selector is no mapping")? {
        s.insert(text_of(k)?, text_of(v)?);
    }
    Ok(s)
}

fn list_of<T>(v: &Value, one: impl Fn(&Value) -> Result<T, String>) -> Result<Vec<T>, String> {
    v.as_sequence().ok_or("not a list")?.iter().map(one).collect()
}

fn egress_of(v: &Value) -> Result<Egress, String> {
    let mut e = Egress::default();
    for (k, v) in v.as_mapping().ok_or("egress is no mapping")? {
        match text_of(k)?.as_str() {
            "interface" => e.interface = Some(text_of(v)?),
            "container" => e.container = Some(text_of(v)?),
            "nextHop" => e.next_hop = Some(text_of(v)?),
            other => return Err(format!("unknown field {other}")),
        }
    }
    Ok(e)
}

fn gateway_of(v: &Value) -> Result<Gateway, String> {
    let mut name = None;
    let mut egress = None;
    let mut g = gateway("", Egress::default());
    for (k, v) in v.as_mapping().ok_or("gateway is no mapping")? {
        match text_of(k)?.as_str() {
            "name" => name = Some(text_of(v)?),
            "egress" => egress = Some(egress_of(v)?),
            "snat" => g.snat = Some(v.as_bool().ok_or("snat")?),
            "mark" => g.mark = Some(text_of(v)?),
            "table" => g.table = Some(u32::try_from(v.as_u64().ok_or("table")?).unwrap()),
            "default" => g.default = v.as_bool().ok_or("default")?,
            "localSubnets" => g.local_subnets = list_of(v, text_of)?,
            "members" => g.members = list_of(v, selector_of)?,
            other => return Err(format!("unknown field {other}")),
        }
    }
    g.name = name.ok_or("missing name")?;
    g.egress = egress.ok_or("missing egress")?;
    Ok(g)
}

fn document(text: &str) -> Result<Vec<Gateway>, String> {
    let v: Value = serde_yaml_ng::from_str(text).map_err(|e| e.to_string())?;
    list_of(&v, gateway_of)
}

fn parse(text: &str) -> Result<Gateways, ConfigError> {
    parse_gateways(document(text))
}

fn gateway(name: &str, egress: Egress) -> Gateway {
    Gateway {
        name: name.to_owned(),
        egress,
        snat: None,
        mark: None,
        table: None,
        default: false,
        local_subnets: vec![],
        members: vec![],
    }
}

fn via_interface(name: &str, interface: &str) -> Gateway {
    gateway(
        name,
        Egress {
            interface: Some(interface.to_owned()),
            container: None,
            next_hop: None,
        },
    )
}

fn via_hop(name: &str, hop: &str) -> Gateway {
    gateway(
        name,
        Egress {
            interface: None,
            container: None,
            next_hop: Some(hop.to_owned()),
        },
    )
}

#[test]
fn mark_parses_hex_and_dec() {
    assert_eq!(parse_mark("0x4").unwrap(), 4);
    assert_eq!(parse_mark("16").unwrap(), 16);
    assert!(parse_mark("zz").is_err());
}

#[test]
fn opt_in_semantics() {
    assert_eq!(opt_in("degc", &labels(&[])), None);
    assert_eq!(opt_in("degc", &labels(&[("degc.enable", "false")])), None);
    assert_eq!(
        opt_in("degc", &labels(&[("degc.enable", "true")])),
        Some(None)
    );
    assert_eq!(
        opt_in(
            "degc",
            &labels(&[("degc.enable", "true"), ("degc.via", "vpn")])
        ),
        Some(Some("vpn".to_owned()))
    );
}

#[test]
fn gateway_validation() {
    let ok = parse(
        "- name: vpn\n  egress: {interface: wg0}\n  snat: true\n  mark: '0x4'\n  table: 200\n  localSubnets: ['192.168.0.0/16']\n",
    )
    .unwrap();
    assert_eq!(ok.0.len(), 1);
    assert!(ok.resolve(None).is_some(), "sole gateway is the default");
    assert_eq!(ok.resolve(Some("nope")), None);

    // a container egress is valid; it is resolved later
    assert!(
        parse("- name: c\n  egress: {container: gluetun}\n  mark: '1'\n  table: 1\n").is_ok()
    );
    // two kinds of egress
    assert!(parse(
        "- name: x\n  egress: {interface: a, nextHop: 10.0.0.1}\n  mark: '1'\n  table: 1\n"
    )
    .is_err());
    // none
    assert!(parse("- name: x\n  egress: {}\n  mark: '1'\n  table: 1\n").is_err());
    // an unknown key
    assert!(parse(
        "- name: x\n  egress: {interface: a}\n  mark: '1'\n  table: 1\n  bogus: 1\n"
    )
    .is_err());
}

#[test]
fn rejects_zero_mark_and_bad_interface() {
    assert!(parse("- name: x\n  egress: {interface: wg0}\n  mark: '0'\n  table: 1\n").is_err());
    assert!(parse("- name: x\n  egress: {interface: wg0}\n  mark: '0x0'\n  table: 1\n").is_err());
    // names that could break the script
    assert!(
        parse("- name: x\n  egress: {interface: 'a\"b'}\n  mark: '1'\n  table: 1\n").is_err()
    );
    assert!(parse(
        "- name: x\n  egress: {interface: thisnameiswaytoolong}\n  mark: '1'\n  table: 1\n"
    )
    .is_err());
    assert!(parse("- name: x\n  egress: {interface: wg0}\n  mark: '1'\n  table: 1\n").is_ok());
}

#[test]
fn minimal_config_needs_no_numbers() {
    let gws = parse("- name: vpn\n  egress: {container: vpn-gw}\n").unwrap();
    let gw = &gws.0[0];
    let m = gw.mark_value().unwrap();
    assert_ne!(m, 0);
    assert!((0x1000..=0xFFFF).contains(&m), "auto mark in range: {m:#x}");
    assert_eq!(m, gw.mark_value().unwrap(), "auto mark is stable");
    assert!(
        (5000..=5999).contains(&gw.table_id()),
        "auto table: {}",
        gw.table_id()
    );
    assert!(!gw.snat_enabled());
    assert_eq!(
        gw.local_subnets_effective(),
        ["10.0.0.0/8", "172.16.0.0/12", "192.168.0.0/16"]
    );
}

#[test]
fn snat_inferred_from_egress_and_overridable() {
    let iface = parse("- name: m\n  egress: {interface: wg0}\n").unwrap();
    assert!(iface.0[0].snat_enabled());
    let off = parse("- name: m\n  egress: {interface: wg0}\n  snat: false\n").unwrap();
    assert!(!off.0[0].snat_enabled());
}

#[test]
fn distinct_names_get_distinct_auto_values() {
    let a = parse("- name: vpn\n  egress: {container: x}\n").unwrap();
    let b = parse("- name: work\n  egress: {container: y}\n").unwrap();
    assert_ne!(a.0[0].mark_value().unwrap(), b.0[0].mark_value().unwrap());
    assert_ne!(a.0[0].table_id(), b.0[0].table_id());
}

#[test]
fn colliding_auto_routing_is_rejected() {
    // both names lead to the same routing table
    let r = parse("- name: ac\n  egress: {container: x}\n- name: bb\n  egress: {container: y}\n");
    assert!(r.is_err(), "colliding auto tables must be rejected: {r:?}");
    // tables of their own resolve it
    assert!(parse(
        "- name: ac\n  egress: {container: x}\n  table: 100\n- name: bb\n  egress: {container: y}\n  table: 101\n"
    )
    .is_ok());
}

#[test]
fn selector_matches_all_keys_or_none() {
    let l = labels(&[("vpn", "true"), ("tier", "dl")]);
    assert!(selector_matches(&parse_selector_label("vpn=true"), &l));
    assert!(selector_matches(
        &parse_selector_label("vpn=true,tier=dl"),
        &l
    ));
    // one key is wrong, and all must match
    assert!(!selector_matches(
        &parse_selector_label("vpn=true,tier=xx"),
        &l
    ));
    // a key is missing
    assert!(!selector_matches(&parse_selector_label("zone=eu"), &l));
    // an empty selector never matches
    assert!(!selector_matches(&Selector::new(), &l));
}

#[test]
fn members_selector_parses_and_validates() {
    let gws = parse(
        "- name: vpn\n  egress: {container: gw}\n  members:\n    - com.docker.compose.service: sabnzbd\n    - {vpn: 'true'}\n",
    )
    .unwrap();
    assert_eq!(gws.0[0].members.len(), 2);
    // an empty selector in the list is rejected
    assert!(parse("- name: vpn\n  egress: {container: gw}\n  members:\n    - {}\n").is_err());
}

#[test]
fn discovered_gateway_reads_knobs() {
    let l = labels(&[
        ("degc.gateway", "vpn"),
        ("degc.gateway.snat", "false"),
        ("degc.gateway.table", "220"),
        ("degc.gateway.localSubnets", "10.0.0.0/8, 192.168.0.0/16"),
        ("degc.gateway.members", "vpn=true"),
    ]);
    let gw = discovered_gateway("degc", "vpn".to_owned(), "vpn-gw".to_owned(), &l).unwrap();
    assert_eq!(gw.egress.container.as_deref(), Some("vpn-gw"));
    assert!(!gw.snat_enabled(), "snat=false honored");
    assert_eq!(gw.table_id(), 220);
    assert_eq!(gw.local_subnets.len(), 2);
    assert_eq!(gw.members, vec![parse_selector_label("vpn=true")]);
}

#[test]
fn discovered_gateway_bad_table_is_error() {
    let l = labels(&[("degc.gateway", "vpn"), ("degc.gateway.table", "abc")]);
    assert!(discovered_gateway("degc", "vpn".to_owned(), "gw".to_owned(), &l).is_err());
}

// ---------------------------------------------------------------------------

#[test]
fn api_version_is_alpha() {
    assert_eq!(VERSION, "v1alpha1");
}

#[test]
fn hash_is_the_standard_one() {
    assert_eq!(fnv1a(""), 0x811c_9dc5);
    assert_eq!(fnv1a("a"), 0xe40c_292c);
    assert_eq!(fnv1a("foobar"), 0xbf9c_f968);
    assert_eq!(fnv1a("é"), {
        let mut h: u32 = 0x811c_9dc5;
        for b in "é".bytes() {
            h ^= u32::from(b);
            h = h.wrapping_mul(0x0100_0193);
        }
        h
    });
}

#[test]
fn derived_values_are_exact() {
    assert_eq!(auto_mark("foobar"), 0x1000 + 0xbf9c_f968 % 0xE000);
    assert_eq!(auto_table("foobar"), 5000 + 0xbf9c_f968 % 1000);
    assert_eq!(auto_table("ac"), 5565);
    assert_eq!(auto_table("bb"), 5565);
}

#[test]
fn marks_read_back() {
    for m in [0u32, 1, 4, 9, 10, 15, 16, 255, 0x1111, 65535, u32::MAX] {
        assert_eq!(parse_mark(&format!("0x{m:x}")).unwrap(), m);
        assert_eq!(parse_mark(&format!(" {m}\t")).unwrap(), m);
        assert_eq!(parse_mark(&format!("0x{m:X}")).unwrap(), m);
    }
}

#[test]
fn marks_that_are_none() {
    for s in ["", "0x", "0X4", "-1", "4294967296", "0x100000000", "4 4", "0x-1"] {
        let e = parse_mark(s).unwrap_err();
        assert_eq!(
            e.message(),
            format!("not a u32: {:?}", s.trim()),
            "for {s:?}"
        );
    }
    assert_eq!(parse_mark("+7").unwrap(), 7);
    assert_eq!(parse_mark("0x+7").unwrap(), 7);
}

#[test]
fn interface_names() {
    for ok in ["wg0", "a", "eth0.100", "br-lan", "x_y", "abcdefghijklmno"] {
        assert!(valid_ifname(ok), "{ok}");
    }
    for bad in ["", "abcdefghijklmnop", "a b", "a\"b", "ä", "a/b", "wg0\n"] {
        assert!(!valid_ifname(bad), "{bad}");
    }
}

#[test]
fn every_error_has_its_message() {
    // kinds of egress
    let none = gateway("x", Egress::default());
    assert_eq!(
        none.validate().unwrap_err().message(),
        "gateway x: egress needs exactly one of interface/container/nextHop (got 0)"
    );
    let mut two = via_interface("x", "wg0");
    two.egress.container = Some("c".to_owned());
    assert_eq!(
        two.validate().unwrap_err().message(),
        "gateway x: egress needs exactly one of interface/container/nextHop (got 2)"
    );
    // marks
    let mut g = via_interface("x", "wg0");
    g.mark = Some("a\"b".to_owned());
    assert_eq!(
        g.validate().unwrap_err().message(),
        "gateway x: bad mark \"a\\\"b\": not a u32: \"a\\\"b\""
    );
    assert_eq!(
        g.mark_value().unwrap_err(),
        ConfigError::BadMark {
            gateway: "x".to_owned(),
            mark: "a\"b".to_owned()
        }
    );
    g.mark = Some("0x0".to_owned());
    assert_eq!(
        g.validate().unwrap_err().message(),
        "gateway x: mark must be non-zero (0 matches all unmarked traffic)"
    );
    // tables
    g.mark = None;
    g.table = Some(0);
    assert_eq!(
        g.validate().unwrap_err().message(),
        "gateway x: table must be > 0"
    );
    // interfaces
    assert_eq!(
        via_interface("x", "a b").validate().unwrap_err().message(),
        "gateway x: bad interface name \"a b\" (want 1-15 of [A-Za-z0-9._-])"
    );
    // next hops
    assert_eq!(
        via_hop("x", "10.0.0.1/32").validate().unwrap_err().message(),
        "gateway x: bad nextHop \"10.0.0.1/32\": invalid IP address syntax"
    );
    assert!(via_hop("x", "10.0.0.1").validate().is_ok());
    assert!(via_hop("x", "fd00::1").validate().is_ok());
    assert!(via_hop("x", "gluetun").validate().is_err());
    // subnets
    let mut g = via_interface("x", "wg0");
    g.local_subnets = vec!["10.0.0.0/8".to_owned(), "10.0.0.0/33".to_owned()];
    assert_eq!(
        g.validate().unwrap_err(),
        ConfigError::BadLocalSubnet {
            gateway: "x".to_owned(),
            subnet: "10.0.0.0/33".to_owned(),
            cause: "invalid address: 10.0.0.0/33".to_owned()
        }
    );
    assert_eq!(
        g.validate().unwrap_err().message(),
        "gateway x: bad localSubnet \"10.0.0.0/33\": invalid address: 10.0.0.0/33"
    );
    // selectors
    let mut g = via_interface("x", "wg0");
    g.members = vec![Selector::new()];
    assert_eq!(
        g.validate().unwrap_err().message(),
        "gateway x: a members selector must not be empty (it would match nothing)"
    );
    // the table label
    let l = labels(&[("degc.gateway.table", " 99999999999 ")]);
    let e = discovered_gateway("degc", "x".to_owned(), "c".to_owned(), &l).unwrap_err();
    assert_eq!(
        e,
        ConfigError::BadTableLabel {
            gateway: "x".to_owned(),
            table: "99999999999".to_owned(),
            cause: NumberError::TooLarge
        }
    );
    assert_eq!(
        e.message(),
        "gateway \"x\": bad table label \"99999999999\": number too large to fit in target type"
    );
    // names
    let twice = Gateways(vec![via_interface("x", "wg0"), via_interface("x", "wg1")]);
    assert_eq!(
        twice.validate().unwrap_err().message(),
        "duplicate gateway \"x\""
    );
    // defaults
    let mut a = via_interface("a", "wg0");
    let mut b = via_interface("b", "wg1");
    a.default = true;
    b.default = true;
    assert_eq!(
        Gateways(vec![a.clone(), b.clone()])
            .validate()
            .unwrap_err()
            .message(),
        "more than one default gateway"
    );
    // marks and tables that are shared
    b.default = false;
    a.mark = Some("0x4".to_owned());
    b.mark = Some("4".to_owned());
    assert_eq!(
        Gateways(vec![a.clone(), b.clone()])
            .validate()
            .unwrap_err()
            .message(),
        "gateways \"a\" and \"b\" resolve to the same mark 0x4 — set an explicit `mark` on one"
    );
    b.mark = Some("5".to_owned());
    a.table = Some(7);
    b.table = Some(7);
    assert_eq!(
        check_unique_routing(&vec![&a, &b]).unwrap_err().message(),
        "gateways \"a\" and \"b\" resolve to the same table 7 — set an explicit `table` on one"
    );
    b.table = Some(8);
    assert!(check_unique_routing(&vec![&a, &b]).is_ok());
    // the document
    assert_eq!(
        parse_gateways(Err("expected a list".to_owned()))
            .unwrap_err()
            .message(),
        "parse gateways document: expected a list"
    );
}

#[test]
fn first_fault_is_reported() {
    let mut g = via_interface("x", "a b");
    g.mark = Some("zz".to_owned());
    g.table = Some(0);
    assert!(matches!(
        g.validate(),
        Err(ConfigError::BadMark { .. })
    ));
    g.mark = None;
    assert!(matches!(g.validate(), Err(ConfigError::ZeroTable { .. })));
    g.table = None;
    assert!(matches!(
        g.validate(),
        Err(ConfigError::BadInterface { .. })
    ));
}

#[test]
fn validity_with_parsed_values() {
    let g = via_hop("x", "router");
    assert!(g.validate().is_err());
    assert!(g
        .validate_with(degc::net::IpAddr::parse("10.0.0.1"), &vec![])
        .is_ok());
    let mut g = via_interface("x", "wg0");
    g.local_subnets = vec!["home".to_owned()];
    let home = Network::parse("10.1.0.0/16");
    assert!(g.validate_with(None, &vec![home]).is_ok());
    assert!(g
        .validate_with(None, &vec![Err("no idea".to_owned())])
        .is_err());
}

#[test]
fn resolving_by_name_and_default() {
    let mut gws = Gateways(vec![via_interface("a", "wg0"), via_interface("b", "wg1")]);
    assert_eq!(gws.resolve(None), None, "two gateways and no default");
    assert_eq!(gws.resolve(Some("b")).unwrap().name, "b");
    gws.0[1].default = true;
    assert_eq!(gws.resolve(None).unwrap().name, "b");
    assert_eq!(gws.resolve(Some("a")).unwrap().name, "a");
    assert_eq!(Gateways::default().resolve(None), None);
    assert!(gws.has("a") && !gws.has("c"));
}

#[test]
fn valid_sets_of_several_gateways() {
    let gws = Gateways(vec![
        via_interface("a", "wg0"),
        via_interface("b", "wg1"),
        via_hop("c", "10.0.0.1"),
    ]);
    assert!(gws.validate().is_ok());
    assert_eq!(gws.clone(), gws);
}

#[test]
fn gateway_names_are_trimmed_and_not_blank() {
    assert_eq!(
        gateway_name("degc", &labels(&[("degc.gateway", " vpn\n")])),
        Some("vpn".to_owned())
    );
    assert_eq!(
        gateway_name("degc", &labels(&[("degc.gateway", "  ")])),
        None
    );
    assert_eq!(gateway_name("degc", &labels(&[])), None);
    assert_eq!(
        gateway_name("other", &labels(&[("degc.gateway", "vpn")])),
        None
    );
}

#[test]
fn selector_labels_are_lists_of_pairs() {
    let s = parse_selector_label(" a = 1 ,b=2=3,nothing,,a=4");
    assert_eq!(s.len(), 2);
    assert_eq!(s.get("a"), Some(&"4".to_owned()), "a later pair wins");
    assert_eq!(s.get("b"), Some(&"2=3".to_owned()));
    assert!(parse_selector_label("nothing").is_empty());
}

#[test]
fn knobs_of_a_gateway_container() {
    let l = labels(&[
        ("p.gateway.snat", " true "),
        ("p.gateway.mark", " 0x9 "),
        ("p.gateway.default", "true"),
        ("p.gateway.localSubnets", " , 10.0.0.0/8 ,,"),
        ("p.gateway.members", "a=b"),
    ]);
    let g = declared_gateway("p", "n".to_owned(), "c".to_owned(), &l).unwrap();
    assert_eq!(g.snat, Some(true));
    assert_eq!(g.mark, Some("0x9".to_owned()));
    assert_eq!(g.mark_value(), Ok(9));
    assert_eq!(g.table, None);
    assert!(g.default);
    assert_eq!(g.local_subnets, ["10.0.0.0/8"]);
    assert_eq!(g.members.len(), 1);
    assert_eq!(g.egress.interface, None);
    assert_eq!(g.egress.next_hop, None);
    // no knobs
    let g = declared_gateway("p", "n".to_owned(), "c".to_owned(), &labels(&[])).unwrap();
    assert_eq!(g.snat, None);
    assert!(!g.default);
    assert!(g.members.is_empty());
    // a selector without a pair is malformed
    let l = labels(&[("p.gateway.members", " , ")]);
    assert!(declared_gateway("p", "n".to_owned(), "c".to_owned(), &l).is_ok());
    assert_eq!(
        discovered_gateway("p", "n".to_owned(), "c".to_owned(), &l),
        Err(ConfigError::EmptySelector {
            gateway: "n".to_owned()
        })
    );
}

#[test]
fn malformed_knobs_are_errors() {
    let discover = |knob: &str, value: &str| {
        let key = format!("degc.gateway.{knob}");
        let l = labels(&[("degc.gateway", "vpn"), (key.as_str(), value)]);
        discovered_gateway("degc", "vpn".to_owned(), "gw".to_owned(), &l)
    };
    let e = discover("snat", "yes").unwrap_err();
    assert_eq!(
        e,
        ConfigError::BadSnatLabel {
            gateway: "vpn".to_owned(),
            snat: "yes".to_owned()
        }
    );
    assert_eq!(
        e.message(),
        "gateway \"vpn\": bad snat label \"yes\": neither true nor false"
    );
    assert_eq!(e.clone(), e);
    for bad in ["", "True", "1", "truefalse"] {
        assert!(matches!(
            discover("snat", bad),
            Err(ConfigError::BadSnatLabel { .. })
        ));
        assert!(matches!(
            discover("default", bad),
            Err(ConfigError::BadDefaultLabel { .. })
        ));
    }
    assert_eq!(
        discover("default", "no").unwrap_err().message(),
        "gateway \"vpn\": bad default label \"no\": neither true nor false"
    );
    let e = discover("members", "vpn=true,tier").unwrap_err();
    assert_eq!(
        e,
        ConfigError::BadMembersLabel {
            gateway: "vpn".to_owned(),
            members: "vpn=true,tier".to_owned()
        }
    );
    assert_eq!(
        e.message(),
        "gateway \"vpn\": bad members label \"vpn=true,tier\": not a list of key=value pairs"
    );
    assert_eq!(discover("snat", "true").unwrap().snat, Some(true));
    assert_eq!(discover("snat", "false").unwrap().snat, Some(false));
    assert!(discover("default", "true").unwrap().default);
    assert!(!discover("default", "false").unwrap().default);
    assert_eq!(
        discover("members", "vpn=true, ,tier=dl,").unwrap().members,
        vec![parse_selector_label("vpn=true,tier=dl")]
    );
}

#[test]
fn first_malformed_knob_is_reported() {
    let all = labels(&[
        ("p.gateway.snat", "x"),
        ("p.gateway.table", "x"),
        ("p.gateway.default", "x"),
        ("p.gateway.members", "x"),
        ("p.gateway.mark", "x"),
    ]);
    assert!(matches!(
        discovered_gateway("p", "n".to_owned(), "c".to_owned(), &all),
        Err(ConfigError::BadSnatLabel { .. })
    ));
    let rest = labels(&[("p.gateway.default", "x"), ("p.gateway.mark", "x")]);
    assert!(matches!(
        discovered_gateway("p", "n".to_owned(), "c".to_owned(), &rest),
        Err(ConfigError::BadDefaultLabel { .. })
    ));
}

#[test]
fn other_labels_do_not_change_a_match() {
    let s = parse_selector_label("a=1");
    assert!(selector_matches(&s, &labels(&[("a", "1")])));
    assert!(selector_matches(&s, &labels(&[("a", "1"), ("z", "9")])));
    assert!(!selector_matches(&s, &labels(&[("z", "9")])));
}
