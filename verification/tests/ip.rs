use netfyr_state::ip::parse_ipv4_network;
use netfyr_state::{from_yaml, IpAddr, Value};

fn v4(a: u8, b: u8, c: u8, d: u8) -> u32 {
    u32::from_be_bytes([a, b, c, d])
}

#[test]
fn parses_a_canonical_network() {
    assert_eq!(parse_ipv4_network("10.0.1.50/24"), Some((v4(10, 0, 1, 50), 24)));
    assert_eq!(parse_ipv4_network("0.0.0.0/0"), Some((0, 0)));
    assert_eq!(parse_ipv4_network("255.255.255.255/32"), Some((u32::MAX, 32)));
}

#[test]
fn refuses_malformed_networks() {
    for text in [
        "", "10.0.1.50", "10.0.1.50/", "10.0.1/24", "10.0.1.50/33", "256.0.0.1/8", "010.0.1.5/24",
        "10.0.1.5/024", "10.0.1.5/24 ", " 10.0.1.5/24", "10.0.1.5/2a", "a.b.c.d/8", "10..1.5/24",
        "2001:db8::/32", "10.0.1.5.6/24", "1000.0.0.1/8",
    ] {
        assert_eq!(parse_ipv4_network(text), None, "accepted {text:?}");
    }
}

#[test]
fn network_text_parses_back() {
    for (addr, prefix) in [(v4(192, 168, 0, 1), 16u8), (v4(1, 2, 3, 4), 0), (v4(0, 0, 0, 0), 32)] {
        let text = Value::IpNetwork((IpAddr::V4(addr), prefix)).to_text();
        assert_eq!(parse_ipv4_network(&text), Some((addr, prefix)), "text was {text}");
    }
}

#[test]
fn address_texts_follow_the_standard_forms() {
    assert_eq!(IpAddr::V4(v4(10, 0, 1, 5)).to_text(), "10.0.1.5");
    assert_eq!(IpAddr::V6(0).to_text(), "::");
    assert_eq!(IpAddr::V6(1).to_text(), "::1");
    assert_eq!(IpAddr::V6(0x2001_0db8_0000_0000_0000_0000_0000_0001).to_text(), "2001:db8::1");
    assert_eq!(IpAddr::V6(0x0000_0000_0000_0000_0000_ffff_0a00_0105).to_text(), "::ffff:10.0.1.5");
    assert_eq!(IpAddr::V6(0x2001_0db8_0000_0001_0000_0000_0000_0001).to_text(), "2001:db8:0:1::1");
    assert_eq!(IpAddr::V6(0x2001_0db8_0001_0001_0001_0001_0001_0000).to_text(), "2001:db8:1:1:1:1:1:0");
}

fn declared_ip(text: &str) -> Value {
    let input = format!("ipv4:\n  addresses:\n    - ip: \"{text}\"\n");
    let states = from_yaml(&input).unwrap();
    let Some(Value::Mapping(ipv4)) = states[0].fields.get("ipv4") else { panic!("no ipv4 mapping") };
    let Some(Value::List(addrs)) = ipv4.get("addresses") else { panic!("no address list") };
    let Value::Mapping(entry) = &addrs[0] else { panic!("address is not a mapping") };
    entry.get("ip").unwrap().clone()
}

#[test]
fn declared_path_keeps_non_canonical_text_as_a_string() {
    for text in ["010.0.1.5/24", "10.0.1.5/024", "10.0.1.5/33", "2001:db8::1/64", "10.0.1.5"] {
        assert_eq!(declared_ip(text), Value::String(text.to_string()), "for {text}");
    }
}

#[test]
fn declared_path_decodes_a_canonical_network() {
    assert_eq!(declared_ip("192.168.7.9/30"), Value::IpNetwork((IpAddr::V4(v4(192, 168, 7, 9)), 30)));
}
