use netfyr_state::{from_yaml, Error, IndexedValidationError, ValidationError};

#[test]
fn error_texts_of_the_simple_variants() {
    assert_eq!(Error::Yaml("bad indent".to_string()).to_text(), "YAML error: bad indent");
    assert_eq!(
        Error::MultiDocument.to_text(),
        "input contains more than one YAML document ('---' separator); netfyr's format expresses multiple devices as a top-level list"
    );
    assert_eq!(Error::EmptyInput.to_text(), "input is empty");
    assert_eq!(
        Error::InvalidTopLevel("a string".to_string()).to_text(),
        "invalid top level: expected a device mapping or a list of device mappings, found a string"
    );
    assert_eq!(
        Error::UnknownKind("device".to_string()).to_text(),
        "unknown kind 'device'; expected 'state' (or omit the key)"
    );
    assert_eq!(
        Error::PolicyWrapperNotSupported.to_text(),
        "kind 'policy' documents are not parsed here; policy wrappers are handled by the policy parser"
    );
    assert_eq!(
        Error::UnknownMatchKey("vendor".to_string()).to_text(),
        "unknown match field 'vendor'; valid fields are: name, type, driver, pci_path, mac"
    );
    assert_eq!(
        Error::MatchNotMapping.to_text(),
        "the 'match' section must be a mapping of field names to string values"
    );
    assert_eq!(
        Error::InvalidFieldKey("null".to_string()).to_text(),
        "invalid field key (found null); keys must be strings or numbers"
    );
    assert_eq!(
        Error::MatchValueNotString { key: "mac".to_string() }.to_text(),
        "match field 'mac' must be a string"
    );
    assert_eq!(
        Error::UnsupportedScalar { kind: "float".to_string() }.to_text(),
        "unsupported YAML value of type float; quote the value to store it as a string"
    );
}

#[test]
fn error_texts_with_state_indices() {
    assert_eq!(
        Error::UnexpectedMatch { state_index: 3 }.to_text(),
        "state at index 3 has a match section, which is not allowed in query YAML"
    );
    assert_eq!(
        Error::MissingMatch { state_index: 0 }.to_text(),
        "state at index 0 has no match section, which is required in policy YAML"
    );
    assert_eq!(
        Error::NoMatchField { field: "name".to_string(), state_index: 12 }.to_text(),
        "state at index 12 has no 'name' field, which is needed to generate its match"
    );
    assert_eq!(
        Error::ReservedFieldKey { key: "type".to_string(), state_index: 1 }.to_text(),
        "state at index 1 has field 'type', but 'match', 'type', and 'kind' are reserved top-level YAML keys"
    );
}

#[test]
fn validation_error_text_lists_every_finding() {
    assert_eq!(Error::Validation(Vec::new()).to_text(), "schema validation failed");
    let findings = vec![
        IndexedValidationError {
            state_index: 0,
            error: ValidationError { message: "mtu is out of range".to_string() },
        },
        IndexedValidationError {
            state_index: 7,
            error: ValidationError { message: "unknown field 'x'".to_string() },
        },
    ];
    assert_eq!(
        Error::Validation(findings).to_text(),
        "schema validation failed; state 0: mtu is out of range; state 7: unknown field 'x'"
    );
}

#[test]
fn null_key_is_an_invalid_field_key() {
    assert_eq!(from_yaml("~: x").unwrap_err(), Error::InvalidFieldKey("null".to_string()));
}

#[test]
fn sequence_key_is_an_invalid_field_key() {
    assert_eq!(
        from_yaml("? [a, b]\n: x\n").unwrap_err(),
        Error::InvalidFieldKey("a sequence".to_string())
    );
}

#[test]
fn invalid_key_inside_a_nested_mapping_is_reported() {
    assert_eq!(
        from_yaml("outer:\n  ~: 1\n").unwrap_err(),
        Error::InvalidFieldKey("null".to_string())
    );
}

#[test]
fn tagged_value_is_a_yaml_error() {
    assert_eq!(
        from_yaml("x: !custom 5\n").unwrap_err(),
        Error::Yaml("tagged YAML values are not supported".to_string())
    );
}

#[test]
fn float_inside_a_list_is_reported() {
    assert_eq!(
        from_yaml("outer:\n  - 1\n  - 2.5\n").unwrap_err(),
        Error::UnsupportedScalar { kind: "float".to_string() }
    );
}

#[test]
fn non_string_kind_names_its_shape() {
    assert_eq!(from_yaml("kind: 5\n").unwrap_err(), Error::UnknownKind("a number".to_string()));
}

#[test]
fn scalar_list_element_names_its_shape() {
    assert_eq!(
        from_yaml("- mtu: 1\n- true\n").unwrap_err(),
        Error::InvalidTopLevel("list element 1 is a boolean, not a mapping".to_string())
    );
}

#[test]
fn syntax_error_is_a_yaml_error() {
    assert!(matches!(from_yaml("a: [1, 2\n").unwrap_err(), Error::Yaml(_)));
}

#[test]
fn whitespace_only_input_is_empty() {
    assert_eq!(from_yaml("  \n\t\n").unwrap_err(), Error::EmptyInput);
}
