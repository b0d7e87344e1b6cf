use netfyr_state::{FieldMap, IpAddr, Value};

fn v4(a: u8, b: u8, c: u8, d: u8) -> IpAddr {
    IpAddr::V4(u32::from_be_bytes([a, b, c, d]))
}

fn v6(segments: [u16; 8]) -> IpAddr {
    let mut x: u128 = 0;
    for s in segments {
        x = (x << 16) | s as u128;
    }
    IpAddr::V6(x)
}

#[test]
fn display_string_bare() {
    assert_eq!(Value::String("hello".to_string()).to_text(), "hello");
}

#[test]
fn display_u64() {
    assert_eq!(Value::U64(9000).to_text(), "9000");
}

#[test]
fn display_i64() {
    assert_eq!(Value::I64(-5).to_text(), "-5");
}

#[test]
fn display_bool() {
    assert_eq!(Value::Bool(true).to_text(), "true");
    assert_eq!(Value::Bool(false).to_text(), "false");
}

#[test]
fn display_ip_addr() {
    assert_eq!(Value::IpAddr(v4(10, 0, 1, 5)).to_text(), "10.0.1.5");
    assert_eq!(Value::IpAddr(v6([0x2001, 0xdb8, 0, 0, 0, 0, 0, 1])).to_text(), "2001:db8::1");
}

#[test]
fn display_ip_network_keeps_host_bits() {
    let v = Value::IpNetwork((v4(10, 0, 1, 50), 24));
    assert_eq!(v.to_text(), "10.0.1.50/24");
}

#[test]
fn display_list() {
    assert_eq!(Value::List(vec![Value::U64(1), Value::Bool(true)]).to_text(), "[1, true]");
    assert_eq!(Value::List(Vec::new()).to_text(), "[]");
}

#[test]
fn display_map() {
    let mut m = FieldMap::new();
    m.insert("a".to_string(), Value::U64(1));
    m.insert("b".to_string(), Value::Bool(true));
    assert_eq!(Value::Mapping(m).to_text(), "{a: 1, b: true}");
    assert_eq!(Value::Mapping(FieldMap::new()).to_text(), "{}");
}

fn nested() -> FieldMap {
    let mut n = FieldMap::new();
    n.insert("z".to_string(), Value::Bool(false));
    n
}

#[test]
fn map_equality_is_order_sensitive() {
    let mut a = FieldMap::new();
    a.insert("x".to_string(), Value::U64(1));
    a.insert("y".to_string(), Value::U64(2));
    let mut b = FieldMap::new();
    b.insert("x".to_string(), Value::U64(1));
    b.insert("y".to_string(), Value::U64(2));
    assert_eq!(Value::Mapping(a.clone()), Value::Mapping(b));
    let mut c = FieldMap::new();
    c.insert("y".to_string(), Value::U64(2));
    c.insert("x".to_string(), Value::U64(1));
    assert_ne!(Value::Mapping(a.clone()), Value::Mapping(c));
    let mut na = FieldMap::new();
    na.insert("x".to_string(), Value::U64(1));
    na.insert("y".to_string(), Value::Mapping(nested()));
    let mut nc = FieldMap::new();
    nc.insert("y".to_string(), Value::Mapping(nested()));
    nc.insert("x".to_string(), Value::U64(1));
    assert_ne!(Value::Mapping(na), Value::Mapping(nc));
    let mut d = FieldMap::new();
    d.insert("x".to_string(), Value::U64(1));
    assert_ne!(Value::Mapping(a), Value::Mapping(d));
}

#[test]
fn cross_variant_inequality() {
    assert_ne!(Value::U64(1), Value::I64(1));
    assert_ne!(Value::String("1".to_string()), Value::U64(1));
    assert_ne!(Value::IpAddr(v4(10, 0, 1, 5)), Value::IpNetwork((v4(10, 0, 1, 5), 24)));
    assert_ne!(Value::Bool(true), Value::U64(1));
    assert_ne!(Value::List(vec![Value::U64(1)]), Value::U64(1));
    assert_ne!(Value::Mapping(FieldMap::new()), Value::List(Vec::new()));
}

// Further cases.

#[test]
fn display_extreme_integers() {
    assert_eq!(Value::U64(u64::MAX).to_text(), "18446744073709551615");
    assert_eq!(Value::I64(i64::MIN).to_text(), "-9223372036854775808");
    assert_eq!(Value::U64(0).to_text(), "0");
}

#[test]
fn display_ipv6_forms() {
    assert_eq!(v6([0; 8]).to_text(), "::");
    assert_eq!(v6([0, 0, 0, 0, 0, 0, 0, 1]).to_text(), "::1");
    assert_eq!(v6([1, 0, 0, 2, 0, 0, 0, 3]).to_text(), "1:0:0:2::3");
    assert_eq!(v6([1, 0, 0, 2, 0, 0, 3, 4]).to_text(), "1::2:0:0:3:4");
    assert_eq!(v6([1, 0, 2, 3, 4, 5, 6, 7]).to_text(), "1:0:2:3:4:5:6:7");
    assert_eq!(v6([0xfe80, 0, 0, 0, 0xabcd, 0xef, 1, 0]).to_text(), "fe80::abcd:ef:1:0");
    assert_eq!(v6([0, 0, 0, 0, 0, 0xffff, 0xc0a8, 0x0101]).to_text(), "::ffff:192.168.1.1");
}

#[test]
fn display_nested_collections() {
    let mut m = FieldMap::new();
    m.insert("l".to_string(), Value::List(vec![Value::String("a".to_string()), Value::I64(-1)]));
    m.insert("n".to_string(), Value::IpNetwork((v4(192, 168, 0, 1), 16)));
    assert_eq!(Value::Mapping(m).to_text(), "{l: [a, -1], n: 192.168.0.1/16}");
}

#[test]
fn clone_is_equal() {
    let v = Value::List(vec![Value::Mapping(nested()), Value::IpNetwork((v4(1, 2, 3, 4), 8))]);
    assert_eq!(v.clone(), v);
}
