use indexmap::IndexMap;
use netfyr_state::yaml::{model_to_value, value_to_model};
use netfyr_state::yaml_node::{YamlDoc, YamlNode, YamlNumber};
use netfyr_state::{from_yaml, to_yaml_policy, to_yaml_query, FieldMap, Match, Source, State, StateMetadata, Value};

fn state(device_type: &str, name: &str, fields: IndexMap<String, Value>) -> State {
    State {
        device_type: device_type.to_string(),
        match_spec: Match { name: Some(name.to_string()), ..Match::default() },
        fields,
        source: Source::Kernel,
        priority: 0,
        metadata: StateMetadata::new(),
    }
}

fn with_ethernet_subobject() -> IndexMap<String, Value> {
    let mut ethernet = FieldMap::new();
    ethernet.insert("speed".to_string(), Value::U64(1000));
    let mut f = IndexMap::new();
    f.insert("mtu".to_string(), Value::U64(9000));
    f.insert("ethernet".to_string(), Value::Mapping(ethernet));
    f
}

#[test]
fn policy_text_is_a_fixed_point_even_when_the_type_is_implied() {
    let s = state("", "eth0", with_ethernet_subobject());
    let text = to_yaml_policy(std::slice::from_ref(&s)).unwrap();
    let back = from_yaml(&text).unwrap();
    assert_eq!(back[0].device_type, "ethernet");
    assert_eq!(back[0].fields.get("mtu"), Some(&Value::U64(9000)));
    assert_eq!(to_yaml_policy(&back).unwrap(), text);
}

#[test]
fn query_text_states_an_implied_type_on_the_second_write() {
    let s = state("", "eth0", with_ethernet_subobject());
    let text = to_yaml_query(std::slice::from_ref(&s)).unwrap();
    assert!(!text.contains("type:"), "text was:\n{text}");
    let back = from_yaml(&text).unwrap();
    assert_eq!(back[0].device_type, "ethernet");
    let again = to_yaml_query(&back).unwrap();
    assert!(again.starts_with("type: ethernet\n"), "text was:\n{again}");
}

#[test]
fn nested_names_keep_their_order_through_a_round_trip() {
    let mut inner = FieldMap::new();
    inner.insert("z".to_string(), Value::I64(-7));
    inner.insert("a".to_string(), Value::List(vec![Value::Bool(false), Value::String("10.0.0.1".to_string())]));
    let mut f = IndexMap::new();
    f.insert("inner".to_string(), Value::Mapping(inner));
    let s = state("bridge", "br0", f);
    let text = to_yaml_policy(std::slice::from_ref(&s)).unwrap();
    let back = from_yaml(&text).unwrap();
    assert!(s.content_eq(&back[0]));
    assert_eq!(to_yaml_policy(&back).unwrap(), text);
}

fn nested_lists(depth: usize) -> Value {
    let mut v = Value::U64(1);
    for _ in 0..depth {
        v = Value::List(vec![v]);
    }
    v
}

#[test]
fn deeply_nested_fields_round_trip_through_text() {
    let mut f = IndexMap::new();
    f.insert("deep".to_string(), nested_lists(120));
    let s = state("bridge", "br0", f);
    let text = to_yaml_policy(std::slice::from_ref(&s)).unwrap();
    let back = from_yaml(&text).unwrap();
    assert!(s.content_eq(&back[0]));
    assert_eq!(to_yaml_policy(&back).unwrap(), text);
}

fn doc_to_node(d: &YamlDoc) -> YamlNode {
    match d {
        YamlDoc::Bool(b) => YamlNode::Bool(*b),
        YamlDoc::NonNegative(n) => YamlNode::Number(YamlNumber::NonNegative(*n)),
        YamlDoc::Negative(n) => YamlNode::Number(YamlNumber::Negative(*n)),
        YamlDoc::String(s) => YamlNode::String(s.clone()),
        YamlDoc::Sequence(items) => YamlNode::Sequence(items.iter().map(doc_to_node).collect()),
        YamlDoc::Mapping(es) => {
            YamlNode::Mapping(es.iter().map(|(k, x)| (YamlNode::String(k.clone()), doc_to_node(x))).collect())
        }
    }
}

#[test]
fn a_value_written_as_a_tree_decodes_to_itself() {
    let mut inner = FieldMap::new();
    inner.insert("b".to_string(), Value::I64(-3));
    inner.insert("a".to_string(), Value::List(vec![Value::U64(7), Value::String("true".to_string())]));
    let v = Value::Mapping(inner);
    let node = doc_to_node(&model_to_value(&v));
    assert_eq!(value_to_model(&node, None).unwrap(), v);
    let ip = Value::IpNetwork((netfyr_state::IpAddr::V4(0x0a00_0132), 24));
    let node = doc_to_node(&model_to_value(&ip));
    assert_eq!(value_to_model(&node, None).unwrap(), Value::String("10.0.1.50/24".to_string()));
}

#[test]
fn field_map_get_index_is_none_past_the_end() {
    let mut m = FieldMap::new();
    m.insert("x".to_string(), Value::Bool(true));
    let (k, v) = m.get_index(0).unwrap();
    assert_eq!((k.as_str(), v), ("x", &Value::Bool(true)));
    assert!(m.get_index(1).is_none());
}
