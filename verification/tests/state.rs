use std::time::SystemTime;

use indexmap::IndexMap;
use netfyr_state::state::UuidVariant;
use netfyr_state::{FieldMap, Match, Source, State, StateMetadata, Value};

fn state_with(device_type: &str, fields: IndexMap<String, Value>) -> State {
    State {
        device_type: device_type.to_string(),
        match_spec: Match::default(),
        fields,
        source: Source::Static { policy: String::new() },
        priority: 100,
        metadata: StateMetadata::new(),
    }
}

fn two_fields() -> IndexMap<String, Value> {
    let mut f = IndexMap::new();
    f.insert("mtu".to_string(), Value::U64(9000));
    f.insert("enabled".to_string(), Value::Bool(true));
    f
}

#[test]
fn new_derives_priority_and_empty_content() {
    for (src, expected) in [
        (Source::Static { policy: String::new() }, 100),
        (Source::Vpn { policy: String::new() }, 75),
        (Source::Dhcp { policy: String::new() }, 50),
        (Source::Ra { policy: String::new() }, 25),
        (Source::Kernel, 0),
    ] {
        let s = State::new(src.clone());
        assert_eq!(s.priority, expected, "source {src:?}");
        assert!(s.device_type.is_empty());
        assert!(s.match_spec.is_empty());
        assert!(s.fields.is_empty());
    }
}

#[test]
fn new_generates_fresh_metadata() {
    let before = SystemTime::now();
    let s = State::new(Source::Kernel);
    let after = SystemTime::now();
    assert_eq!(s.metadata.id_version(), 7);
    assert_eq!(s.metadata.id_variant(), UuidVariant::Rfc4122);
    assert!(s.metadata.created_at >= before);
    assert!(s.metadata.created_at <= after);
    let a = StateMetadata::new();
    let b = StateMetadata::new();
    assert_ne!(a.id, b.id);
}

#[test]
fn content_eq_true_for_same_content_different_runtime_fields() {
    let a = state_with("ethernet", two_fields());
    let mut b = state_with("ethernet", two_fields());
    b.source = Source::Kernel;
    b.priority = 0;
    b.metadata = StateMetadata::new();
    assert!(a.content_eq(&b));
}

#[test]
fn content_eq_false_on_device_type() {
    let a = state_with("ethernet", two_fields());
    let b = state_with("wifi", two_fields());
    assert!(!a.content_eq(&b));
}

#[test]
fn content_eq_false_on_match_spec() {
    let mut a = state_with("ethernet", two_fields());
    let mut b = state_with("ethernet", two_fields());
    a.match_spec.name = Some("eth0".to_string());
    b.match_spec.name = Some("eth1".to_string());
    assert!(!a.content_eq(&b));
}

#[test]
fn content_eq_false_on_field_value() {
    let a = state_with("ethernet", two_fields());
    let mut b = state_with("ethernet", two_fields());
    // Re-inserting an existing key updates the value in place.
    b.fields.insert("mtu".to_string(), Value::U64(1500));
    assert!(!a.content_eq(&b));
}

#[test]
fn content_eq_false_on_field_key_set() {
    let mut a = state_with("ethernet", IndexMap::new());
    a.fields.insert("mtu".to_string(), Value::U64(9000));
    let mut b = state_with("ethernet", IndexMap::new());
    b.fields.insert("mtu".to_string(), Value::U64(9000));
    b.fields.insert("extra".to_string(), Value::Bool(true));
    assert!(!a.content_eq(&b));
}

#[test]
fn content_eq_false_on_field_order() {
    let mut a = IndexMap::new();
    a.insert("first".to_string(), Value::U64(1));
    a.insert("second".to_string(), Value::U64(2));
    let mut b = IndexMap::new();
    b.insert("second".to_string(), Value::U64(2));
    b.insert("first".to_string(), Value::U64(1));
    let s1 = state_with("ethernet", a);
    let s2 = state_with("ethernet", b);
    assert!(!s1.content_eq(&s2));
}

#[test]
fn content_eq_is_reflexive_and_symmetric() {
    let a = state_with("ethernet", two_fields());
    let b = state_with("ethernet", two_fields());
    assert!(a.content_eq(&a));
    assert!(a.content_eq(&b));
    assert!(b.content_eq(&a));
}

#[test]
fn field_map_insert_keeps_position_and_returns_old_value() {
    let mut m = FieldMap::new();
    m.insert("mtu".to_string(), Value::U64(9000));
    m.insert("enabled".to_string(), Value::Bool(true));
    assert_eq!(m.insert("mtu".to_string(), Value::U64(1500)), Some(Value::U64(9000)));
    assert_eq!(m.keys(), vec!["mtu", "enabled"]);
    assert_eq!(m.get("mtu"), Some(&Value::U64(1500)));
    assert_eq!(m.insert("new".to_string(), Value::Bool(false)), None);
    assert_eq!(m.keys(), vec!["mtu", "enabled", "new"]);
    assert_eq!(m.len(), 3);
    assert!(m.contains_key("new"));
    assert!(!m.contains_key("absent"));
    assert_eq!(m.get("absent"), None);
}
