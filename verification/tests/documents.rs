use indexmap::IndexMap;
use netfyr_state::schema::SchemaRegistry;
use netfyr_state::yaml::{render, states_from_document, states_from_loaded, text_from_dump};
use netfyr_state::yaml_node::{YamlDoc, YamlNode, YamlNumber};
use netfyr_state::{Error, Match, Source, State, StateMetadata, Value};

fn key(s: &str) -> YamlNode {
    YamlNode::String(s.to_string())
}

fn device(pairs: Vec<(YamlNode, YamlNode)>) -> YamlNode {
    YamlNode::Mapping(pairs)
}

fn plain_state(device_type: &str, fields: IndexMap<String, Value>) -> State {
    State {
        device_type: device_type.to_string(),
        match_spec: Match::default(),
        fields,
        source: Source::Kernel,
        priority: 0,
        metadata: StateMetadata::new(),
    }
}

#[test]
fn refused_text_with_a_second_document_is_multidocument() {
    let registry = SchemaRegistry::embedded();
    let r = states_from_loaded(
        Err("deserializing from YAML containing more than one document is not supported".to_string()),
        &registry,
    );
    assert_eq!(r.unwrap_err(), Error::MultiDocument);
}

#[test]
fn other_refused_text_keeps_the_parser_message() {
    let registry = SchemaRegistry::embedded();
    let r = states_from_loaded(Err("did not find expected key at line 2".to_string()), &registry);
    assert_eq!(r.unwrap_err(), Error::Yaml("did not find expected key at line 2".to_string()));
}

#[test]
fn loaded_mapping_is_one_state() {
    let registry = SchemaRegistry::embedded();
    let doc = device(vec![
        (key("type"), YamlNode::String("bridge".to_string())),
        (key("mtu"), YamlNode::Number(YamlNumber::NonNegative(1500))),
        (YamlNode::Number(YamlNumber::Negative(-3)), YamlNode::Bool(false)),
    ]);
    let states = states_from_loaded(Ok(doc), &registry).unwrap();
    assert_eq!(states.len(), 1);
    assert_eq!(states[0].device_type, "bridge");
    assert_eq!(states[0].fields.get("mtu"), Some(&Value::U64(1500)));
    assert_eq!(states[0].fields.get("-3"), Some(&Value::Bool(false)));
    assert_eq!(states[0].source, Source::Static { policy: String::new() });
    assert_eq!(states[0].priority, 100);
}

#[test]
fn float_key_takes_its_text() {
    let registry = SchemaRegistry::embedded();
    let doc = device(vec![(YamlNode::Number(YamlNumber::Float("1.5".to_string())), YamlNode::Bool(true))]);
    let states = states_from_document(&doc, &registry).unwrap();
    assert_eq!(states[0].fields.get("1.5"), Some(&Value::Bool(true)));
}

#[test]
fn boolean_key_takes_its_text() {
    let registry = SchemaRegistry::embedded();
    let doc = device(vec![(YamlNode::Bool(true), YamlNode::String("x".to_string()))]);
    let states = states_from_document(&doc, &registry).unwrap();
    assert_eq!(states[0].fields.get("true"), Some(&Value::String("x".to_string())));
}

#[test]
fn tagged_top_level_is_invalid() {
    let registry = SchemaRegistry::embedded();
    assert_eq!(
        states_from_document(&YamlNode::Tagged(Box::new(YamlNode::Null)), &registry).unwrap_err(),
        Error::InvalidTopLevel("a tagged value".to_string())
    );
}

#[test]
fn first_failing_list_element_is_reported() {
    let registry = SchemaRegistry::embedded();
    let doc = YamlNode::Sequence(vec![
        device(vec![(key("mtu"), YamlNode::Null)]),
        YamlNode::String("eth1".to_string()),
    ]);
    assert_eq!(
        states_from_document(&doc, &registry).unwrap_err(),
        Error::UnsupportedScalar { kind: "null".to_string() }
    );
}

#[test]
fn writer_failure_is_a_yaml_error() {
    assert_eq!(text_from_dump(Err("oops".to_string())).unwrap_err(), Error::Yaml("oops".to_string()));
    assert_eq!(text_from_dump(Ok("a: 1\n".to_string())).unwrap(), "a: 1\n");
}

#[test]
fn one_state_renders_as_a_mapping_in_field_order() {
    let registry = SchemaRegistry::embedded();
    let mut f = IndexMap::new();
    f.insert("mtu".to_string(), Value::U64(9000));
    f.insert("offset".to_string(), Value::I64(-2));
    let doc = render(&[plain_state("ethernet", f)], false, &registry).unwrap();
    let YamlDoc::Mapping(entries) = doc else { panic!("expected a mapping") };
    let keys: Vec<&str> = entries.iter().map(|(k, _)| k.as_str()).collect();
    assert_eq!(keys, vec!["type", "mtu", "offset"]);
    assert!(matches!(entries[1].1, YamlDoc::NonNegative(9000)));
    assert!(matches!(entries[2].1, YamlDoc::Negative(-2)));
}

#[test]
fn zero_states_render_as_an_empty_sequence() {
    let registry = SchemaRegistry::embedded();
    let doc = render(&[], true, &registry).unwrap();
    assert!(matches!(doc, YamlDoc::Sequence(ref items) if items.is_empty()));
}

#[test]
fn reserved_key_in_a_later_state_stops_rendering() {
    let registry = SchemaRegistry::embedded();
    let mut f = IndexMap::new();
    f.insert("kind".to_string(), Value::Bool(true));
    let states = [plain_state("", IndexMap::new()), plain_state("", IndexMap::new()), plain_state("", f)];
    assert_eq!(
        render(&states, false, &registry).unwrap_err(),
        Error::ReservedFieldKey { key: "kind".to_string(), state_index: 2 }
    );
}

#[test]
fn a_non_negative_signed_tree_number_reads_as_u64() {
    let registry = SchemaRegistry::embedded();
    let doc = device(vec![(key("n"), YamlNode::Number(YamlNumber::Negative(5)))]);
    let states = states_from_document(&doc, &registry).unwrap();
    assert_eq!(states[0].fields.get("n"), Some(&Value::U64(5)));
}
