use indexmap::IndexMap;
use netfyr_state::state::UuidVariant;
use netfyr_state::{
    from_yaml, to_yaml_policy, to_yaml_query, Error, FieldMap, IpAddr, Match, Source, State, StateMetadata, Value,
};

fn ip(s: &str) -> IpAddr {
    let octets: Vec<u8> = s.split('.').map(|o| o.parse().unwrap()).collect();
    IpAddr::V4(u32::from_be_bytes([octets[0], octets[1], octets[2], octets[3]]))
}

fn parse_cidr(cidr: &str) -> (IpAddr, u8) {
    let (a, p) = cidr.split_once('/').unwrap();
    (ip(a), p.parse().unwrap())
}

/// Builds the nested `ipv4: { addresses: [ { ip: <cidr> }, ... ] }` value.
fn ipv4_with_addresses(cidrs: &[&str]) -> Value {
    let mut addr_list = Vec::new();
    for cidr in cidrs {
        let mut obj = FieldMap::new();
        obj.insert("ip".to_string(), Value::IpNetwork(parse_cidr(cidr)));
        addr_list.push(Value::Mapping(obj));
    }
    let mut ipv4 = FieldMap::new();
    ipv4.insert("addresses".to_string(), Value::List(addr_list));
    Value::Mapping(ipv4)
}

fn st(device_type: &str, match_spec: Match, fields: IndexMap<String, Value>) -> State {
    State {
        device_type: device_type.to_string(),
        match_spec,
        fields,
        source: Source::Static { policy: String::new() },
        priority: 100,
        metadata: StateMetadata::new(),
    }
}

fn match_named(name: &str) -> Match {
    Match { name: Some(name.to_string()), ..Match::default() }
}

// ---------------------------------------------------------------- parse

#[test]
fn match_extracted_remaining_keys_are_fields() {
    let input = "match:\n  name: eth0\nmtu: 9000\nipv4:\n  addresses:\n    - ip: 10.0.1.50/24\n";
    let s = &from_yaml(input).unwrap()[0];
    assert_eq!(s.match_spec.name.as_deref(), Some("eth0"));
    assert!(!s.fields.contains_key("match"));
    assert_eq!(s.fields.get("mtu"), Some(&Value::U64(9000)));
    assert_eq!(s.fields.get("ipv4"), Some(&ipv4_with_addresses(&["10.0.1.50/24"])));
}

#[test]
fn unknown_cidr_like_field_remains_string() {
    let s = &from_yaml("match:\n  name: eth0\nsubnet: 10.0.1.0/24").unwrap()[0];
    assert_eq!(s.fields.get("subnet"), Some(&Value::String("10.0.1.0/24".to_string())));
}

#[test]
fn top_level_list_yields_states_in_order() {
    let input = "- name: eth0\n  mtu: 9000\n- name: eth1\n  mtu: 1500\n";
    let states = from_yaml(input).unwrap();
    assert_eq!(states.len(), 2);
    assert_eq!(states[0].fields.get("name"), Some(&Value::String("eth0".to_string())));
    assert_eq!(states[0].fields.get("mtu"), Some(&Value::U64(9000)));
    assert_eq!(states[1].fields.get("name"), Some(&Value::String("eth1".to_string())));
    assert_eq!(states[1].fields.get("mtu"), Some(&Value::U64(1500)));
}

#[test]
fn address_list_order_preserved() {
    let input = "match:\n  name: eth0\nipv4:\n  addresses:\n    - ip: 10.0.1.2/24\n    - ip: 10.0.1.1/24\n";
    let states = from_yaml(input).unwrap();
    let s = &states[0];
    let Value::Mapping(ipv4) = s.fields.get("ipv4").unwrap() else {
        panic!("ipv4 is not a map");
    };
    let Value::List(addrs) = ipv4.get("addresses").unwrap() else {
        panic!("addresses is not a list");
    };
    assert_eq!(addrs.len(), 2);
    let Value::Mapping(a0) = &addrs[0] else { panic!() };
    assert_eq!(a0.get("ip"), Some(&Value::IpNetwork((ip("10.0.1.2"), 24))));
    let Value::Mapping(a1) = &addrs[1] else { panic!() };
    assert_eq!(a1.get("ip"), Some(&Value::IpNetwork((ip("10.0.1.1"), 24))));
    let text = to_yaml_policy(&states).unwrap();
    let reparsed = from_yaml(&text).unwrap();
    assert!(states[0].content_eq(&reparsed[0]));
}

#[test]
fn bool_lowercase() {
    let s = &from_yaml("x: true\ny: false").unwrap()[0];
    assert_eq!(s.fields.get("x"), Some(&Value::Bool(true)));
    assert_eq!(s.fields.get("y"), Some(&Value::Bool(false)));
}

#[test]
fn bool_capitalized_spellings() {
    let s = &from_yaml("a: True\nb: TRUE\nc: FALSE").unwrap()[0];
    assert_eq!(s.fields.get("a"), Some(&Value::Bool(true)));
    assert_eq!(s.fields.get("b"), Some(&Value::Bool(true)));
    assert_eq!(s.fields.get("c"), Some(&Value::Bool(false)));
}

#[test]
fn non_negative_int_u64() {
    let s = &from_yaml("mtu: 9000").unwrap()[0];
    assert_eq!(s.fields.get("mtu"), Some(&Value::U64(9000)));
}

#[test]
fn negative_int_i64() {
    let s = &from_yaml("x: -5").unwrap()[0];
    assert_eq!(s.fields.get("x"), Some(&Value::I64(-5)));
}

#[test]
fn cidr_like_unknown_values_remain_strings() {
    let s = &from_yaml("v4: 10.0.1.50/24\nv6: 2001:db8::/32").unwrap()[0];
    assert_eq!(s.fields.get("v4"), Some(&Value::String("10.0.1.50/24".to_string())));
    assert_eq!(s.fields.get("v6"), Some(&Value::String("2001:db8::/32".to_string())));
}

#[test]
fn bare_ip_like_unknown_values_remain_strings() {
    let s = &from_yaml("v4: 10.0.1.5\nv6: 2001:db8::1").unwrap()[0];
    assert_eq!(s.fields.get("v4"), Some(&Value::String("10.0.1.5".to_string())));
    assert_eq!(s.fields.get("v6"), Some(&Value::String("2001:db8::1".to_string())));
}

#[test]
fn plain_word_and_yes_are_strings() {
    let s = &from_yaml("word: hello\ny: yes").unwrap()[0];
    assert_eq!(s.fields.get("word"), Some(&Value::String("hello".to_string())));
    assert_eq!(s.fields.get("y"), Some(&Value::String("yes".to_string())));
}

#[test]
fn float_is_unsupported_scalar() {
    let err = from_yaml("x: 0.5").unwrap_err();
    assert_eq!(err, Error::UnsupportedScalar { kind: "float".to_string() });
}

#[test]
fn null_is_unsupported_scalar() {
    for input in ["x: ~", "x: null"] {
        let err = from_yaml(input).unwrap_err();
        assert_eq!(err, Error::UnsupportedScalar { kind: "null".to_string() });
    }
}

#[test]
fn nested_list_and_map() {
    let input = "outer:\n  - 1\n  - true\ninner:\n  a: 1\n  b: true\n";
    let s = &from_yaml(input).unwrap()[0];
    assert_eq!(s.fields.get("outer"), Some(&Value::List(vec![Value::U64(1), Value::Bool(true)])));
    let mut inner = FieldMap::new();
    inner.insert("a".to_string(), Value::U64(1));
    inner.insert("b".to_string(), Value::Bool(true));
    assert_eq!(s.fields.get("inner"), Some(&Value::Mapping(inner)));
    let Value::Mapping(inner_map) = s.fields.get("inner").unwrap() else { panic!() };
    let keys: Vec<&str> = inner_map.keys();
    assert_eq!(keys, vec!["a", "b"]);
}

#[test]
fn cidr_validity_is_checked_only_by_a_declared_format() {
    let s = &from_yaml("x: 10.0.1.0/33").unwrap()[0];
    assert_eq!(s.fields.get("x"), Some(&Value::String("10.0.1.0/33".to_string())));
}

#[test]
fn kind_absent_and_state_accepted_and_consumed() {
    for input in ["name: eth0", "kind: state\nname: eth0"] {
        let states = from_yaml(input).unwrap();
        assert_eq!(states.len(), 1);
        assert!(!states[0].fields.contains_key("kind"));
    }
}

#[test]
fn kind_policy_is_error() {
    let err = from_yaml("kind: policy\nname: eth0").unwrap_err();
    assert_eq!(err, Error::PolicyWrapperNotSupported);
}

#[test]
fn kind_unknown_is_error() {
    let err = from_yaml("kind: banana\nname: eth0").unwrap_err();
    assert_eq!(err, Error::UnknownKind("banana".to_string()));
}

#[test]
fn empty_input_is_error() {
    for input in ["", "   ", "\n  \n"] {
        let err = from_yaml(input).unwrap_err();
        assert_eq!(err, Error::EmptyInput);
    }
}

#[test]
fn explicit_empty_list_yields_zero_states() {
    let states = from_yaml("[]").unwrap();
    assert!(states.is_empty());
}

#[test]
fn top_level_scalar_is_error() {
    assert!(matches!(from_yaml("just a string"), Err(Error::InvalidTopLevel(_))));
    assert!(matches!(from_yaml("42"), Err(Error::InvalidTopLevel(_))));
}

#[test]
fn non_mapping_list_element_is_error() {
    let err = from_yaml("- name: eth0\n- 42").unwrap_err();
    assert!(matches!(err, Error::InvalidTopLevel(_)));
}

#[test]
fn leading_document_marker_accepted() {
    let states = from_yaml("---\nname: eth0").unwrap();
    assert_eq!(states.len(), 1);
    assert_eq!(states[0].fields.get("name"), Some(&Value::String("eth0".to_string())));
}

#[test]
fn second_document_is_multidocument_error() {
    let err = from_yaml("name: eth0\n---\nname: eth1").unwrap_err();
    assert_eq!(err, Error::MultiDocument);
}

#[test]
fn explicit_type_sets_device_type() {
    let s = &from_yaml("type: ethernet\nmtu: 9000").unwrap()[0];
    assert_eq!(s.device_type, "ethernet");
}

#[test]
fn explicit_type_wins_over_tech_subobject() {
    let s = &from_yaml("type: wifi\nethernet:\n  speed: 1000").unwrap()[0];
    assert_eq!(s.device_type, "wifi");
}

#[test]
fn registered_ethernet_subobject_implies_type() {
    let s = &from_yaml("ethernet:\n  speed: 1000").unwrap()[0];
    assert_eq!(s.device_type, "ethernet");
    let s = &from_yaml("wifi:\n  ssid: net").unwrap()[0];
    assert!(s.device_type.is_empty());
}

#[test]
fn ipv4_subobject_does_not_imply_type() {
    let s = &from_yaml("ipv4:\n  addresses:\n    - ip: 10.0.1.50/24").unwrap()[0];
    assert!(s.device_type.is_empty());
}

#[test]
fn non_string_type_value_is_error() {
    let err = from_yaml("type: 42").unwrap_err();
    assert_eq!(err, Error::UnsupportedScalar { kind: "a number".to_string() });
}

#[test]
fn unknown_match_key_is_error() {
    let err = from_yaml("match:\n  name: eth0\n  bogus: x").unwrap_err();
    assert_eq!(err, Error::UnknownMatchKey("bogus".to_string()));
}

#[test]
fn match_not_mapping_is_error() {
    let err = from_yaml("match: eth0").unwrap_err();
    assert_eq!(err, Error::MatchNotMapping);
}

#[test]
fn non_string_match_value_is_error() {
    let err = from_yaml("match:\n  name: 42").unwrap_err();
    assert_eq!(err, Error::MatchValueNotString { key: "name".to_string() });
}

#[test]
fn parsed_states_get_static_source_priority_and_fresh_metadata() {
    let states = from_yaml("- name: eth0\n- name: eth1").unwrap();
    for s in &states {
        assert_eq!(s.source, Source::Static { policy: String::new() });
        assert_eq!(s.priority, 100);
        assert_eq!(s.metadata.id_version(), 7);
        assert_eq!(s.metadata.id_variant(), UuidVariant::Rfc4122);
    }
    let again = from_yaml("- name: eth0").unwrap();
    assert_ne!(states[0].metadata.id, again[0].metadata.id);
}

#[test]
fn two_contributions_to_same_device_coexist_in_order() {
    let input = "- match:\n    name: eth0\n  mtu: 9000\n- match:\n    name: eth0\n  ipv4:\n    addresses:\n      - ip: 10.0.1.50/24\n";
    let states = from_yaml(input).unwrap();
    assert_eq!(states.len(), 2);
    assert_eq!(states[0].match_spec.name.as_deref(), Some("eth0"));
    assert_eq!(states[1].match_spec.name.as_deref(), Some("eth0"));
    assert_eq!(states[0].fields.get("mtu"), Some(&Value::U64(9000)));
    assert!(!states[0].fields.contains_key("ipv4"));
    assert!(states[1].fields.contains_key("ipv4"));
}

#[test]
fn numeric_scalar_key_canonicalized() {
    let s = &from_yaml("9000: x").unwrap()[0];
    assert!(s.fields.contains_key("9000"));
    assert_eq!(s.fields.get("9000"), Some(&Value::String("x".to_string())));
}

// --------------------------------------------- serialize and round-trip

#[test]
fn reserved_top_level_fields_are_rejected() {
    for key in ["match", "type", "kind"] {
        let mut fields = IndexMap::new();
        fields.insert(key.to_string(), Value::String("value".to_string()));
        let state = st("ethernet", match_named("eth0"), fields);
        for render in [to_yaml_query as fn(&[State]) -> Result<String, Error>, to_yaml_policy] {
            assert_eq!(
                render(std::slice::from_ref(&state)).unwrap_err(),
                Error::ReservedFieldKey { key: key.to_string(), state_index: 0 }
            );
        }
    }
}

#[test]
fn reserved_top_level_field_reports_its_list_index() {
    let first = st("", Match::default(), IndexMap::new());
    let mut fields = IndexMap::new();
    fields.insert("type".to_string(), Value::String("ethernet".to_string()));
    let second = st("", Match::default(), fields);
    assert_eq!(
        to_yaml_query(&[first, second]).unwrap_err(),
        Error::ReservedFieldKey { key: "type".to_string(), state_index: 1 }
    );
}

#[test]
fn reserved_names_in_nested_maps_are_allowed() {
    let mut nested = FieldMap::new();
    for key in ["match", "type", "kind"] {
        nested.insert(key.to_string(), Value::String("value".to_string()));
    }
    let mut fields = IndexMap::new();
    fields.insert("nested".to_string(), Value::Mapping(nested));
    let state = st("", Match::default(), fields);
    for render in [to_yaml_query as fn(&[State]) -> Result<String, Error>, to_yaml_policy] {
        assert!(render(std::slice::from_ref(&state)).is_ok());
    }
}

#[test]
fn ordinary_fields_serialize_unchanged() {
    let mut fields = IndexMap::new();
    fields.insert("mtu".to_string(), Value::U64(9000));
    let state = st("ethernet", match_named("eth0"), fields);
    assert_eq!(to_yaml_query(std::slice::from_ref(&state)).unwrap(), "type: ethernet\nmtu: 9000\n");
    assert_eq!(
        to_yaml_policy(&[state]).unwrap(),
        "match:\n  name: eth0\ntype: ethernet\nmtu: 9000\n"
    );
}

#[test]
fn policy_roundtrip_preserves_content_and_order() {
    let mut fields = IndexMap::new();
    fields.insert("mtu".to_string(), Value::U64(9000));
    fields.insert("ipv4".to_string(), ipv4_with_addresses(&["10.0.1.50/24"]));
    fields.insert("enabled".to_string(), Value::Bool(true));
    let written = st("ethernet", match_named("eth0"), fields);
    let text = to_yaml_policy(std::slice::from_ref(&written)).unwrap();
    let reparsed = from_yaml(&text).unwrap();
    assert_eq!(reparsed.len(), 1);
    assert!(written.content_eq(&reparsed[0]));
    let keys: Vec<&str> = reparsed[0].fields.keys().map(String::as_str).collect();
    assert_eq!(keys, vec!["mtu", "ipv4", "enabled"]);
    let Value::Mapping(ipv4) = reparsed[0].fields.get("ipv4").unwrap() else { panic!() };
    let Value::List(addrs) = ipv4.get("addresses").unwrap() else { panic!() };
    assert_eq!(addrs.len(), 1);
    assert_eq!(reparsed[0].source, Source::Static { policy: String::new() });
    assert_eq!(reparsed[0].priority, 100);
    assert_eq!(reparsed[0].metadata.id_version(), 7);
    assert_ne!(reparsed[0].metadata.id, written.metadata.id);
}

#[test]
fn query_roundtrip_preserves_content() {
    let mut fields = IndexMap::new();
    fields.insert("name".to_string(), Value::String("eth0".to_string()));
    fields.insert("mac".to_string(), Value::String("aa:bb:cc:dd:ee:ff".to_string()));
    fields.insert("driver".to_string(), Value::String("ixgbe".to_string()));
    fields.insert("carrier".to_string(), Value::Bool(true));
    fields.insert("mtu".to_string(), Value::U64(9000));
    let base = st("ethernet", Match::default(), fields);
    let kernel_state = State { source: Source::Kernel, priority: 0, ..base };
    let text = to_yaml_query(std::slice::from_ref(&kernel_state)).unwrap();
    let reparsed = from_yaml(&text).unwrap();
    assert!(kernel_state.content_eq(&reparsed[0]));
    assert_eq!(reparsed[0].source, Source::Static { policy: String::new() });
    assert_eq!(reparsed[0].priority, 100);
    assert_ne!(reparsed[0].metadata.id, kernel_state.metadata.id);
}

#[test]
fn query_format_omits_match_section() {
    let mut f = IndexMap::new();
    f.insert("mtu".to_string(), Value::U64(9000));
    let written = st("ethernet", match_named("eth0"), f);
    let text = to_yaml_query(&[written]).unwrap();
    assert!(!text.contains("match:"));
    let reparsed = from_yaml(&text).unwrap();
    assert!(reparsed[0].match_spec.is_empty());
    assert_eq!(reparsed[0].device_type, "ethernet");
    assert_eq!(reparsed[0].fields.get("mtu"), Some(&Value::U64(9000)));
}

#[test]
fn policy_format_match_section_fixed_key_order() {
    let m = Match {
        name: Some("eth0".to_string()),
        device_type: None,
        driver: Some("ixgbe".to_string()),
        pci_path: None,
        mac: Some("aa:bb:cc:dd:ee:ff".to_string()),
    };
    let mut f = IndexMap::new();
    f.insert("mtu".to_string(), Value::U64(9000));
    let written = st("", m, f);
    let text = to_yaml_policy(&[written]).unwrap();
    let name_pos = text.find("name:").unwrap();
    let driver_pos = text.find("driver:").unwrap();
    let mac_pos = text.find("mac:").unwrap();
    assert!(name_pos < driver_pos);
    assert!(driver_pos < mac_pos);
    assert!(!text.contains("pci_path"));
    let reparsed = from_yaml(&text).unwrap()[0].clone();
    assert_eq!(reparsed.match_spec.name.as_deref(), Some("eth0"));
    assert_eq!(reparsed.match_spec.driver.as_deref(), Some("ixgbe"));
    assert_eq!(reparsed.match_spec.mac.as_deref(), Some("aa:bb:cc:dd:ee:ff"));
    assert_eq!(reparsed.match_spec.device_type, None);
    assert_eq!(reparsed.match_spec.pci_path, None);
}

#[test]
fn policy_format_keeps_an_empty_match_mapping() {
    let state = st("", Match::default(), IndexMap::new());
    assert_eq!(to_yaml_policy(&[state]).unwrap(), "match: {}\n");
}

#[test]
fn one_state_is_mapping_two_states_are_sequence() {
    let mut f1 = IndexMap::new();
    f1.insert("name".to_string(), Value::String("eth0".to_string()));
    let mut f2 = IndexMap::new();
    f2.insert("name".to_string(), Value::String("eth1".to_string()));
    let s1 = st("", Match::default(), f1);
    let s2 = st("", Match::default(), f2);
    let one = to_yaml_query(std::slice::from_ref(&s1)).unwrap();
    assert!(!one.trim_start().starts_with('-'));
    let one_reparsed = from_yaml(&one).unwrap();
    assert_eq!(one_reparsed.len(), 1);
    let two = to_yaml_query(&[s1.clone(), s2.clone()]).unwrap();
    assert!(two.trim_start().starts_with('-'));
    let two_reparsed = from_yaml(&two).unwrap();
    assert_eq!(two_reparsed.len(), 2);
    assert!(s1.content_eq(&two_reparsed[0]));
    assert!(s2.content_eq(&two_reparsed[1]));
}

#[test]
fn reserialization_is_idempotent() {
    let mut f = IndexMap::new();
    f.insert("mtu".to_string(), Value::U64(9000));
    f.insert("enabled".to_string(), Value::Bool(true));
    f.insert("ipv4".to_string(), ipv4_with_addresses(&["10.0.1.50/24", "10.0.1.51/24"]));
    let s1 = st("ethernet", match_named("eth0"), f);
    let a = to_yaml_policy(std::slice::from_ref(&s1)).unwrap();
    let b = to_yaml_policy(&[from_yaml(&a).unwrap()[0].clone()]).unwrap();
    let c = to_yaml_policy(&[from_yaml(&b).unwrap()[0].clone()]).unwrap();
    assert_eq!(a, b);
    assert_eq!(b, c);
    let mut f2 = IndexMap::new();
    f2.insert("mtu".to_string(), Value::U64(1500));
    let s2 = st("", Match::default(), f2);
    let qa = to_yaml_query(&[s1.clone(), s2.clone()]).unwrap();
    let qb = to_yaml_query(&from_yaml(&qa).unwrap()).unwrap();
    let qc = to_yaml_query(&from_yaml(&qb).unwrap()).unwrap();
    assert_eq!(qa, qb);
    assert_eq!(qb, qc);
}

#[test]
fn type_emitted_first_only_when_nonempty() {
    let mut f = IndexMap::new();
    f.insert("mtu".to_string(), Value::U64(9000));
    let with_type = st("ethernet", Match::default(), f.clone());
    let t = to_yaml_query(&[with_type]).unwrap();
    assert!(t.trim_start().starts_with("type:"));
    assert!(t.find("type:").unwrap() < t.find("mtu:").unwrap());
    let no_type = st("", Match::default(), f);
    let t2 = to_yaml_query(&[no_type]).unwrap();
    assert!(!t2.contains("type:"));
}

#[test]
fn policy_omits_an_implied_type_that_query_still_states() {
    let mut f = IndexMap::new();
    f.insert("mtu".to_string(), Value::U64(9000));
    let mut ethernet = FieldMap::new();
    ethernet.insert("speed".to_string(), Value::U64(1000));
    f.insert("ethernet".to_string(), Value::Mapping(ethernet));
    let s = st("ethernet", match_named("eth0"), f);
    let query = to_yaml_query(std::slice::from_ref(&s)).unwrap();
    assert!(query.contains("type: ethernet"), "query was:\n{query}");
    let policy = to_yaml_policy(std::slice::from_ref(&s)).unwrap();
    assert!(!policy.contains("\ntype: ethernet"), "policy restated an implied type:\n{policy}");
    let reparsed = from_yaml(&policy).unwrap();
    assert_eq!(reparsed[0].device_type, "ethernet");
    assert!(s.content_eq(&reparsed[0]));
    let mut f2 = IndexMap::new();
    f2.insert("mtu".to_string(), Value::U64(9000));
    let bridge = st("bridge", match_named("br0"), f2);
    let policy = to_yaml_policy(&[bridge]).unwrap();
    assert!(policy.contains("type: bridge"), "policy was:\n{policy}");
}

#[test]
fn no_reserved_or_runtime_keys_in_output() {
    let mut f = IndexMap::new();
    f.insert("mtu".to_string(), Value::U64(9000));
    let s = st("ethernet", match_named("eth0"), f);
    for text in [
        to_yaml_query(std::slice::from_ref(&s)).unwrap(),
        to_yaml_policy(std::slice::from_ref(&s)).unwrap(),
    ] {
        assert!(!text.contains("kind:"));
        assert!(!text.contains("source:"));
        assert!(!text.contains("priority:"));
    }
}

#[test]
fn empty_slice_roundtrips_through_empty_list() {
    let text = to_yaml_query(&[]).unwrap();
    assert_eq!(text.trim(), "[]");
    assert!(from_yaml(&text).unwrap().is_empty());
}

#[test]
fn string_quoting_corpus_roundtrips() {
    let corpus = [
        "true", "123", "null", "~", "", "a: b", "#hash", "line1\nline2", "10.0.1.5", "2001:db8::1",
        "10.0.1.50/24", "2001:db8::1/64",
    ];
    for value in corpus {
        let mut f = IndexMap::new();
        f.insert("s".to_string(), Value::String(value.to_string()));
        let s = st("", Match::default(), f);
        let text = to_yaml_query(&[s]).unwrap();
        let reparsed = from_yaml(&text).unwrap()[0].clone();
        assert_eq!(
            reparsed.fields.get("s"),
            Some(&Value::String(value.to_string())),
            "round-trip failed for {value:?}"
        );
    }
}

#[test]
fn ip_like_string_roundtrips_without_retyping() {
    let mut f = IndexMap::new();
    f.insert("ip".to_string(), Value::String("10.0.1.5".to_string()));
    let s = st("", Match::default(), f);
    let text = to_yaml_query(&[s]).unwrap();
    let reparsed = from_yaml(&text).unwrap()[0].clone();
    assert_eq!(reparsed.fields.get("ip"), Some(&Value::String("10.0.1.5".to_string())));
}

#[test]
fn virtual_device_type_roundtrips() {
    let mut f = IndexMap::new();
    f.insert("name".to_string(), Value::String("br0".to_string()));
    let s = st("bridge", match_named("br0"), f);
    let text = to_yaml_policy(std::slice::from_ref(&s)).unwrap();
    let reparsed = from_yaml(&text).unwrap()[0].clone();
    assert!(s.content_eq(&reparsed));
    assert_eq!(reparsed.device_type, "bridge");
}

#[test]
fn ip_network_requires_a_formatted_schema_path_on_reparse() {
    let mut f = IndexMap::new();
    f.insert("subnet".to_string(), Value::IpNetwork((ip("10.0.1.50"), 24)));
    let s = st("", Match::default(), f);
    let text = to_yaml_query(&[s]).unwrap();
    assert!(text.contains("10.0.1.50/24"), "text was: {text}");
    let reparsed = from_yaml(&text).unwrap()[0].clone();
    assert_eq!(reparsed.fields.get("subnet"), Some(&Value::String("10.0.1.50/24".to_string())));
}
