use netfyr_state::{from_yaml, Error, Value};

#[test]
fn tagged_type_is_read_through_its_tag() {
    let s = &from_yaml("type: !custom ethernet\nmtu: 1500\n").unwrap()[0];
    assert_eq!(s.device_type, "ethernet");
}

#[test]
fn tagged_non_string_type_names_the_tag() {
    assert_eq!(
        from_yaml("type: !custom 5\n").unwrap_err(),
        Error::UnsupportedScalar { kind: "a tagged value".to_string() }
    );
}

#[test]
fn tagged_match_section_and_values_are_read_through_their_tags() {
    let s = &from_yaml("match: !sel\n  name: !n eth0\n  mac: AA:BB:CC:DD:EE:FF\nmtu: 9000\n").unwrap()[0];
    assert_eq!(s.match_spec.name.as_deref(), Some("eth0"));
    assert_eq!(s.match_spec.mac.as_deref(), Some("AA:BB:CC:DD:EE:FF"));
    assert_eq!(s.fields.get("mtu"), Some(&Value::U64(9000)));
}

#[test]
fn tagged_field_value_is_refused() {
    assert_eq!(
        from_yaml("mtu: !custom 1500\n").unwrap_err(),
        Error::Yaml("tagged YAML values are not supported".to_string())
    );
}

#[test]
fn tagged_kind_is_unknown() {
    assert_eq!(from_yaml("kind: !k state\n").unwrap_err(), Error::UnknownKind("a tagged value".to_string()));
}

#[test]
fn tagged_key_is_invalid() {
    assert_eq!(
        from_yaml("!k mtu: 1500\n").unwrap_err(),
        Error::InvalidFieldKey("a tagged value".to_string())
    );
}

#[test]
fn tagged_top_level_mapping_is_invalid() {
    assert_eq!(
        from_yaml("!dev\nmtu: 1500\n").unwrap_err(),
        Error::InvalidTopLevel("a tagged value".to_string())
    );
}

#[test]
fn negative_and_non_negative_integers_split_by_sign() {
    let s = &from_yaml("a: -1\nb: 0\nc: 18446744073709551615\nd: -9223372036854775808\n").unwrap()[0];
    assert_eq!(s.fields.get("a"), Some(&Value::I64(-1)));
    assert_eq!(s.fields.get("b"), Some(&Value::U64(0)));
    assert_eq!(s.fields.get("c"), Some(&Value::U64(u64::MAX)));
    assert_eq!(s.fields.get("d"), Some(&Value::I64(i64::MIN)));
}
