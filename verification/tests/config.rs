use degc::api::v1alpha1::{Egress, Gateway};
use degc::config::{
    env_u64, load_gateways, valid_message, Config, Environment, GatewaysFile, LoadError,
};
use degc::net::SocketAddr;

fn vars(pairs: &[(&str, &str)]) -> Environment {
    let mut v = Environment::new();
    for (k, x) in pairs {
        v.insert((*k).to_owned(), (*x).to_owned());
    }
    v
}

fn gateway(name: &str) -> Gateway {
    Gateway {
        name: name.to_owned(),
        egress: Egress {
            interface: Some("wg0".to_owned()),
            container: None,
            next_hop: None,
        },
        snat: None,
        mark: None,
        table: None,
        default: false,
        local_subnets: vec![],
        members: vec![],
    }
}

#[test]
fn defaults_apply() {
    // nothing is set; only the fallbacks count
    let unset = vars(&[]);
    assert_eq!(env_u64(&unset, "DEGC_DOES_NOT_EXIST", 7), 7);
    assert_eq!(degc::config::env(&unset, "DEGC_DOES_NOT_EXIST", "x"), "x");
}

#[test]
fn settings_without_variables() {
    assert_eq!(
        Config::from_env(&vars(&[])),
        Config {
            label_prefix: "degc".to_owned(),
            gateways_path: "/etc/degc/gateways.yaml".to_owned(),
            resync_interval: 30,
            debounce: 500,
            metrics_addr: None,
        }
    );
}

#[test]
fn settings_from_variables() {
    let c = Config::from_env(&vars(&[
        ("DEGC_LABEL_PREFIX", "x"),
        ("DEGC_GATEWAYS_PATH", "/g"),
        ("DEGC_RESYNC_INTERVAL", "0"),
        ("DEGC_DEBOUNCE_MS", "0"),
        ("DEGC_METRICS_ADDR", "0.0.0.0:9101"),
    ]));
    assert_eq!(c.label_prefix, "x");
    assert_eq!(c.resync_interval, 1, "at least a second");
    assert_eq!(c.debounce, 0);
    assert_eq!(
        c.metrics_addr,
        Some(SocketAddr::V4 {
            addr: 0,
            port: 9101
        })
    );
    assert_eq!(c.gateways_file(false), "/g");
    assert_eq!(c.gateways_file(true), "/g/gateways.yaml");
}

#[test]
fn metrics_address_that_is_none_is_not_used() {
    for bad in ["nonsense", "", "0.0.0.0", ":9101", "localhost:9101"] {
        let c = Config::from_env(&vars(&[("DEGC_METRICS_ADDR", bad)]));
        assert_eq!(c.metrics_addr, None, "{bad:?}");
    }
}

#[test]
fn addresses_with_ports() {
    let v4 = |addr, port| Some(SocketAddr::V4 { addr, port });
    let v6 = |addr, port, scope| Some(SocketAddr::V6 { addr, port, scope });
    let local = 0xfe80_0000_0000_0000_0000_0000_0000_0001;
    for (s, want) in [
        ("0.0.0.0:9101", v4(0, 9101)),
        ("10.0.0.1:80", v4(0x0a00_0001, 80)),
        ("1.2.3.4:0", v4(0x0102_0304, 0)),
        ("1.2.3.4:65535", v4(0x0102_0304, 65535)),
        ("1.2.3.4:00080", v4(0x0102_0304, 80)),
        ("[::]:9101", v6(0, 9101, 0)),
        ("[::1]:80", v6(1, 80, 0)),
        ("[::ffff:1.2.3.4]:80", v6(0xffff_0102_0304, 80, 0)),
        ("[fe80::1%0]:1", v6(local, 1, 0)),
        ("[fe80::1%2]:9101", v6(local, 9101, 2)),
        ("[fe80::1%007]:1", v6(local, 1, 7)),
        ("[fe80::1%4294967295]:1", v6(local, 1, u32::MAX)),
    ] {
        assert_eq!(SocketAddr::parse(s), want, "{s:?}");
    }
    for s in [
        "1.2.3.4:65536",
        "1.2.3.4:+80",
        "1.2.3.4:-1",
        "1.2.3.4: 80",
        " 1.2.3.4:80",
        "1.2.3.4:80 ",
        "1.2.3.4:",
        "1.2.3.4",
        "1.2.3:80",
        "01.2.3.4:80",
        "1.2.3.4/8:80",
        "1.2.3.4:80:80",
        "[1.2.3.4]:80",
        "[::1]80",
        "[::1]:",
        "[::1]",
        "::1:80",
        "[::1/128]:80",
        "[fe80::1%4294967296]:1",
        "[fe80::1%]:1",
        "[fe80::1%eth0]:1",
        "[fe80::1%+1]:1",
        "[%1]:1",
        "[]:1",
        "[::1]]:80",
        "[[::1]:80",
        "[::1]:80]",
        "[::1%1%2]:80",
        "[",
        "",
    ] {
        assert_eq!(SocketAddr::parse(s), None, "{s:?}");
    }
}

#[test]
fn numbers_that_are_none_fall_back() {
    for bad in ["", "x", "-1", " 5", "18446744073709551616", "1.5"] {
        assert_eq!(env_u64(&vars(&[("K", bad)]), "K", 9), 9, "{bad:?}");
    }
    assert_eq!(
        env_u64(&vars(&[("K", "18446744073709551615")]), "K", 9),
        u64::MAX
    );
    assert_eq!(env_u64(&vars(&[("K", "+5")]), "K", 9), 5);
}

#[test]
fn missing_file_is_in_order() {
    let gws = load_gateways("/g", GatewaysFile::Missing).unwrap();
    assert!(gws.0.is_empty());
    assert_eq!(valid_message(&gws), "ok: 0 gateway(s) valid");
}

#[test]
fn unreadable_file_is_an_error() {
    let e = load_gateways("/g", GatewaysFile::Unreadable("denied".to_owned())).unwrap_err();
    assert_eq!(e.message(), "reading gateways from /g: denied");
    assert!(matches!(e, LoadError::Unreadable { .. }));
}

#[test]
fn read_file_is_checked() {
    let gws = load_gateways("/g", GatewaysFile::Read(Ok(vec![gateway("a")]))).unwrap();
    assert_eq!(valid_message(&gws), "ok: 1 gateway(s) valid");
    let e = load_gateways(
        "/g",
        GatewaysFile::Read(Ok(vec![gateway("a"), gateway("a")])),
    )
    .unwrap_err();
    assert_eq!(e.message(), "duplicate gateway \"a\"");
    let e = load_gateways("/g", GatewaysFile::Read(Err("no list".to_owned()))).unwrap_err();
    assert_eq!(e.message(), "parse gateways document: no list");
    assert_eq!(e.message_with("C"), "C");
}
