use degc::api::v1alpha1::error::number_message;
use degc::net::{IpAddr, Network};
use degc::ordered::{IpSet, TextMap};
use degc::text::{
    contains_text, decimal, hex, join, lines, parse_hex_u32, parse_u32, parse_u64, split_on,
    split_once, trim, white, words,
};

const SAMPLES: [&str; 16] = [
    "",
    " ",
    "\n",
    "\r\n",
    "a",
    " a ",
    "a\nb",
    "a\r\nb\r\n",
    "a\n\nb\n",
    "\ta b\u{a0}c\u{3000}",
    "a,b,,c,",
    ",",
    "a=b=c",
    "é ü\u{2028}x",
    "x\r",
    "\r\r\n",
];

#[test]
fn white_space_is_that_of_unicode() {
    for u in 0..=0x10_FFFFu32 {
        if let Some(c) = char::from_u32(u) {
            assert_eq!(white(c), c.is_whitespace(), "{u:x}");
        }
    }
}

#[test]
fn texts_are_cut_as_usual() {
    for s in SAMPLES {
        assert_eq!(trim(s), s.trim(), "{s:?}");
        assert_eq!(lines(s), s.lines().collect::<Vec<_>>(), "{s:?}");
        assert_eq!(words(s), s.split_whitespace().collect::<Vec<_>>(), "{s:?}");
        for sep in [',', '=', 'a', '\n'] {
            let parts = split_on(s, sep);
            assert_eq!(parts, s.split(sep).collect::<Vec<_>>(), "{s:?}");
            assert_eq!(join(&parts, &sep.to_string()), s, "{s:?}");
            assert_eq!(
                split_once(s, sep),
                s.split_once(sep)
                    .map(|(a, b)| (a.to_owned(), b.to_owned())),
                "{s:?}"
            );
        }
        for part in SAMPLES {
            assert_eq!(contains_text(s, part), s.contains(part), "{s:?} {part:?}");
        }
    }
}

#[test]
fn numbers_are_written_as_usual() {
    for n in [0u64, 1, 9, 10, 11, 99, 100, 4_294_967_295, u64::MAX] {
        assert_eq!(decimal(n), n.to_string());
    }
    for n in [0u32, 1, 9, 10, 15, 16, 255, 256, 0xdead_beef, u32::MAX] {
        assert_eq!(hex(n), format!("0x{n:x}"));
    }
}

#[test]
fn numbers_are_read_as_usual() {
    for s in [
        "", "+", "-", "0", "00", "7", "+7", "-7", " 7", "7 ", "4294967295", "4294967296",
        "4294967296x", "99999999999", "a", "F", "g", "ffffffff", "100000000", "0x1", "٣",
        "18446744073709551615", "18446744073709551616", "++1",
    ] {
        let told = s.parse::<u32>();
        match (parse_u32(s), &told) {
            (Ok(a), Ok(b)) => assert_eq!(a, *b),
            (Err(e), Err(f)) => assert_eq!(number_message(e), f.to_string(), "{s:?}"),
            other => panic!("{s:?}: {other:?}"),
        }
        let told = u32::from_str_radix(s, 16);
        match (parse_hex_u32(s), &told) {
            (Ok(a), Ok(b)) => assert_eq!(a, *b),
            (Err(e), Err(f)) => assert_eq!(number_message(e), f.to_string(), "{s:?}"),
            other => panic!("{s:?}: {other:?}"),
        }
        let told = s.parse::<u64>();
        match (parse_u64(s), &told) {
            (Ok(a), Ok(b)) => assert_eq!(a, *b),
            (Err(e), Err(f)) => assert_eq!(number_message(e), f.to_string(), "{s:?}"),
            other => panic!("{s:?}: {other:?}"),
        }
    }
}

#[test]
fn addresses() {
    let v4 = IpAddr::parse("172.18.0.7").unwrap();
    assert_eq!(v4, IpAddr::V4(0xAC12_0007));
    assert_eq!(v4.to_text(), "172.18.0.7");
    assert!(v4.is_ipv4());
    let v6 = IpAddr::parse("2001:DB8:0::0:1").unwrap();
    assert_eq!(v6, IpAddr::V6(0x2001_0db8_0000_0000_0000_0000_0000_0001));
    assert_eq!(v6.to_text(), "2001:db8::1");
    assert!(!v6.is_ipv4());
    for bad in ["", "1.2.3", "1.2.3.4.5", "256.0.0.1", "10.0.0.1/8", "x", "fd00::/8", " 1.2.3.4"] {
        assert_eq!(IpAddr::parse(bad), None, "{bad:?}");
    }
    assert_eq!(IpAddr::V4(u32::MAX).to_text(), "255.255.255.255");
    assert_eq!(IpAddr::V4(0).to_text(), "0.0.0.0");
}

#[test]
fn networks() {
    for (s, text) in [
        ("10.0.0.0/8", "10.0.0.0/8"),
        ("10.1.2.3/8", "10.1.2.3/8"),
        ("10.0.0.0/255.0.0.0", "10.0.0.0/8"),
        ("10.0.0.1", "10.0.0.1/32"),
        ("FD00::/8", "fd00::/8"),
        ("::1", "::1/128"),
    ] {
        let n = Network::parse(s).unwrap();
        assert_eq!(n.to_text(), text);
        let told: ipnetwork::IpNetwork = s.parse().unwrap();
        assert_eq!(told.to_string(), text);
        assert_eq!(n.is_ipv4(), told.is_ipv4());
    }
    assert_eq!(
        Network::parse("10.0.0.0/33").unwrap_err(),
        "invalid address: 10.0.0.0/33"
    );
    assert!(Network::parse("").is_err());
}

#[test]
fn sets_of_addresses_are_in_order() {
    let mut s = IpSet::new();
    assert!(s.is_empty());
    for a in ["fd00::1", "10.0.0.9", "10.0.0.10", "10.0.0.9", "::1"] {
        s.insert(IpAddr::parse(a).unwrap());
    }
    let texts: Vec<String> = s.elements().iter().map(IpAddr::to_text).collect();
    assert_eq!(texts, ["10.0.0.9", "10.0.0.10", "::1", "fd00::1"]);
    assert_eq!(s.len(), 4);
}

#[test]
fn maps_are_in_order() {
    let mut m: TextMap<u32> = TextMap::new();
    for (k, v) in [("b", 1), ("a", 2), ("é", 3), ("", 4), ("B", 5), ("a", 6), ("ab", 7)] {
        m.insert(k.to_owned(), v);
    }
    let keys: Vec<&str> = (0..m.len()).map(|i| m.key_at(i)).collect();
    assert_eq!(keys, ["", "B", "a", "ab", "b", "é"]);
    assert_eq!(m.get("a"), Some(&6));
    assert_eq!(*m.value_at(2), 6);
    assert_eq!(m.get("c"), None);
    assert!(m.contains("é") && !m.contains("e"));
}
