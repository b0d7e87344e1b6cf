//! The two YAML formats (query output and policy) and their conversion to
//! the model: text ↔ YAML tree (through `serde_yaml`) ↔ states.
//!
//! Parsing walks the schema together with the tree: a scalar is interpreted
//! only by the schema node governing its field path. A state read from YAML
//! is a bare state with a `Static` source, the default static priority, and
//! fresh metadata.
use vstd::prelude::*;
use crate::error::{Error, ErrorModel};
use crate::ip::{ip_text, network_text, push_ip, push_network, IpAddr};
use crate::match_spec::{Match, MatchView};
use crate::schema::{
    decode_string_at, items_of, opt_schema, property_of, SchemaNode, SchemaRegistry,
    decode_string, implied_device_type, items_schema, property_schema, top_level_schema,
    RegistryModel, SchemaModel, StringFormat, embedded_registry_model,
};
use crate::source::Source;
use crate::state::{uuid_variant, uuid_version, UuidVariant, state_content, State, StateContent, StateMetadata};
use crate::text::{
    blank, contains, contains_text, decimal, decimal_string, is_blank, push_decimal, push_signed_decimal,
    push_str, same_text, signed_decimal, string_of,
};
use crate::value::{bool_text, keys_distinct, maps_distinct, lemma_value_models, map_insert, value_models, FieldMap, Value, ValueModel};
use crate::match_spec::opt_text;
use crate::fields::{field_at, field_entries, fields_len, insert_field, new_fields};
use crate::roundtrip::{
    lemma_document_roundtrip, lemma_rewrite_same_document, lemma_rewrite_same_text, lemma_stable_states_ready,
    names_distinct_throughout,
    read_back_contents, states_stable, types_settled,
};
use crate::yaml_node::{
    lemma_pair_models, lemma_yaml_models, pair_models, yaml_models, DocModel, NumberModel, YamlModel,
    YamlNode, YamlNumber, load_yaml, yaml_dump, yaml_load, dump_yaml, YamlDoc, doc_model, doc_models,
    doc_entry_models, lemma_doc_models, lemma_doc_entry_models, doc_as_yaml,
};

verus! {

// ------------------------------------------------------------------ decoding

/// A short noun for a YAML value's shape, for error messages.
pub open spec fn shape_text(y: YamlModel) -> Seq<char> {
    match y {
        YamlModel::Null => "null"@,
        YamlModel::Bool(_) => "a boolean"@,
        YamlModel::Number(_) => "a number"@,
        YamlModel::Str(_) => "a string"@,
        YamlModel::Sequence(_) => "a sequence"@,
        YamlModel::Mapping(_) => "a mapping"@,
        YamlModel::Tagged(_) => "a tagged value"@,
    }
}

/// The value under any tags: a tagged value's content, through every tag.
pub open spec fn untag(y: YamlModel) -> YamlModel
    decreases y,
{
    match y {
        YamlModel::Tagged(b) => untag(*b),
        _ => y,
    }
}

/// The string form of a mapping key: strings as they are, numbers and
/// booleans by their canonical text; other keys have none.
pub open spec fn key_text(k: YamlModel) -> Result<Seq<char>, ErrorModel> {
    match k {
        YamlModel::Str(s) => Ok(s),
        YamlModel::Number(NumberModel::NonNegative(n)) => Ok(decimal(n as nat)),
        YamlModel::Number(NumberModel::Negative(n)) => Ok(signed_decimal(n as int)),
        YamlModel::Number(NumberModel::Float(t)) => Ok(t),
        YamlModel::Bool(b) => Ok(bool_text(b)),
        _ => Err(ErrorModel::InvalidFieldKey(shape_text(k))),
    }
}

/// A YAML value as a model value, under the schema of its path.
pub open spec fn decode_value(y: YamlModel, schema: Option<SchemaModel>) -> Result<ValueModel, ErrorModel>
    decreases y,
{
    match y {
        YamlModel::Null => Err(ErrorModel::UnsupportedScalar("null"@)),
        YamlModel::Bool(b) => Ok(ValueModel::Bool(b)),
        YamlModel::Number(NumberModel::NonNegative(n)) => Ok(ValueModel::U64(n)),
        YamlModel::Number(NumberModel::Negative(n)) => if n < 0 {
            Ok(ValueModel::I64(n))
        } else {
            Ok(ValueModel::U64(n as u64))
        },
        YamlModel::Number(NumberModel::Float(_)) => Err(ErrorModel::UnsupportedScalar("float"@)),
        YamlModel::Str(s) => Ok(decode_string(schema, s)),
        YamlModel::Sequence(items) => match decode_items(items, items_schema(schema)) {
            Ok(vs) => Ok(ValueModel::List(vs)),
            Err(e) => Err(e),
        },
        YamlModel::Mapping(pairs) => match decode_pairs(pairs, schema) {
            Ok(es) => Ok(ValueModel::Mapping(es)),
            Err(e) => Err(e),
        },
        YamlModel::Tagged(_) => Err(ErrorModel::Yaml("tagged YAML values are not supported"@)),
    }
}

/// List items, in order; the first failing item's error.
pub open spec fn decode_items(items: Seq<YamlModel>, schema: Option<SchemaModel>) -> Result<Seq<ValueModel>, ErrorModel>
    decreases items,
{
    if items.len() == 0 {
        Ok(Seq::empty())
    } else {
        match decode_items(items.drop_last(), schema) {
            Err(e) => Err(e),
            Ok(vs) => match decode_value(items.last(), schema) {
                Ok(v) => Ok(vs.push(v)),
                Err(e) => Err(e),
            },
        }
    }
}

/// Mapping entries, in order, each under its property's schema; a repeated
/// name keeps its first place and takes the later value.
pub open spec fn decode_pairs(pairs: Seq<(YamlModel, YamlModel)>, schema: Option<SchemaModel>) -> Result<Seq<(Seq<char>, ValueModel)>, ErrorModel>
    decreases pairs,
{
    if pairs.len() == 0 {
        Ok(Seq::empty())
    } else {
        match decode_pairs(pairs.drop_last(), schema) {
            Err(e) => Err(e),
            Ok(es) => match key_text(pairs.last().0) {
                Err(e) => Err(e),
                Ok(key) => match decode_value(pairs.last().1, property_schema(schema, key)) {
                    Ok(v) => Ok(map_insert(es, key, v)),
                    Err(e) => Err(e),
                },
            },
        }
    }
}

/// The selector with one more field set from a `match:` entry.
pub open spec fn match_with(m: MatchView, key: Seq<char>, s: Seq<char>) -> Result<MatchView, ErrorModel> {
    if key == "name"@ {
        Ok(MatchView { name: Some(s), ..m })
    } else if key == "type"@ {
        Ok(MatchView { device_type: Some(s), ..m })
    } else if key == "driver"@ {
        Ok(MatchView { driver: Some(s), ..m })
    } else if key == "pci_path"@ {
        Ok(MatchView { pci_path: Some(s), ..m })
    } else if key == "mac"@ {
        Ok(MatchView { mac: Some(s), ..m })
    } else {
        Err(ErrorModel::UnknownMatchKey(key))
    }
}

/// The entries of a `match:` mapping, in order.
pub open spec fn decode_match_pairs(pairs: Seq<(YamlModel, YamlModel)>) -> Result<MatchView, ErrorModel>
    decreases pairs.len(),
{
    if pairs.len() == 0 {
        Ok(MatchView { name: None, device_type: None, driver: None, pci_path: None, mac: None })
    } else {
        match decode_match_pairs(pairs.drop_last()) {
            Err(e) => Err(e),
            Ok(m) => match key_text(pairs.last().0) {
                Err(e) => Err(e),
                Ok(key) => match untag(pairs.last().1) {
                    YamlModel::Str(s) => match_with(m, key, s),
                    _ => Err(ErrorModel::MatchValueNotString(key)),
                },
            },
        }
    }
}

/// A `match:` section: a mapping of selector fields to strings.
pub open spec fn decode_match(y: YamlModel) -> Result<MatchView, ErrorModel> {
    match untag(y) {
        YamlModel::Mapping(pairs) => decode_match_pairs(pairs),
        _ => Err(ErrorModel::MatchNotMapping),
    }
}

/// The `kind:` discriminator: `state` is accepted, `policy` is parsed elsewhere.
pub open spec fn check_kind(y: YamlModel) -> Result<(), ErrorModel> {
    match y {
        YamlModel::Str(k) => if k == "state"@ {
            Ok(())
        } else if k == "policy"@ {
            Err(ErrorModel::PolicyWrapperNotSupported)
        } else {
            Err(ErrorModel::UnknownKind(k))
        },
        _ => Err(ErrorModel::UnknownKind(shape_text(y))),
    }
}

/// A device mapping's entries folded into a device type, a selector and fields.
pub open spec fn decode_state_pairs(pairs: Seq<(YamlModel, YamlModel)>, reg: RegistryModel) -> Result<StateContent, ErrorModel>
    decreases pairs.len(),
{
    if pairs.len() == 0 {
        Ok(StateContent {
            device_type: Seq::empty(),
            match_spec: MatchView { name: None, device_type: None, driver: None, pci_path: None, mac: None },
            fields: Seq::empty(),
        })
    } else {
        match decode_state_pairs(pairs.drop_last(), reg) {
            Err(e) => Err(e),
            Ok(acc) => {
                let (k, v) = pairs.last();
                match key_text(k) {
                    Err(e) => Err(e),
                    Ok(key) => if key == "match"@ {
                        match decode_match(v) {
                            Ok(m) => Ok(StateContent { match_spec: m, ..acc }),
                            Err(e) => Err(e),
                        }
                    } else if key == "kind"@ {
                        match check_kind(v) {
                            Ok(_) => Ok(acc),
                            Err(e) => Err(e),
                        }
                    } else if key == "type"@ {
                        match untag(v) {
                            YamlModel::Str(s) => Ok(StateContent { device_type: s, ..acc }),
                            _ => Err(ErrorModel::UnsupportedScalar(shape_text(v))),
                        }
                    } else {
                        match decode_value(v, top_level_schema(reg, key)) {
                            Ok(x) => Ok(StateContent { fields: map_insert(acc.fields, key, x), ..acc }),
                            Err(e) => Err(e),
                        }
                    },
                }
            },
        }
    }
}

/// One device mapping as a state: an empty device type takes the type a
/// technology sub-object implies.
pub open spec fn decode_state(pairs: Seq<(YamlModel, YamlModel)>, reg: RegistryModel) -> Result<StateContent, ErrorModel> {
    match decode_state_pairs(pairs, reg) {
        Err(e) => Err(e),
        Ok(c) => if c.device_type.len() == 0 {
            match implied_device_type(reg, c.fields) {
                Some(t) => Ok(StateContent { device_type: t, ..c }),
                None => Ok(c),
            }
        } else {
            Ok(c)
        },
    }
}

/// The error for a top-level list element that is not a mapping.
pub open spec fn list_element_error(i: int, y: YamlModel) -> ErrorModel {
    ErrorModel::InvalidTopLevel("list element "@ + decimal(i as nat) + " is "@ + shape_text(y) + ", not a mapping"@)
}

/// The elements of a top-level list as states, in order.
pub open spec fn decode_state_list(items: Seq<YamlModel>, reg: RegistryModel) -> Result<Seq<StateContent>, ErrorModel>
    decreases items.len(),
{
    if items.len() == 0 {
        Ok(Seq::empty())
    } else {
        match decode_state_list(items.drop_last(), reg) {
            Err(e) => Err(e),
            Ok(cs) => match items.last() {
                YamlModel::Mapping(pairs) => match decode_state(pairs, reg) {
                    Ok(c) => Ok(cs.push(c)),
                    Err(e) => Err(e),
                },
                _ => Err(list_element_error(items.len() - 1, items.last())),
            },
        }
    }
}

/// A document as states: a mapping is one state, a sequence one state per
/// element in order; anything else is an invalid top level.
pub open spec fn decode_document(doc: YamlModel, reg: RegistryModel) -> Result<Seq<StateContent>, ErrorModel> {
    match doc {
        YamlModel::Mapping(pairs) => match decode_state(pairs, reg) {
            Ok(c) => Ok(seq![c]),
            Err(e) => Err(e),
        },
        YamlModel::Sequence(items) => decode_state_list(items, reg),
        _ => Err(ErrorModel::InvalidTopLevel(shape_text(doc))),
    }
}

/// The error for a text the parser refused: a second document is reported
/// as such, anything else as a YAML error with the parser's message.
pub open spec fn load_failure(message: Seq<char>) -> ErrorModel {
    if contains_text(message, "more than one document"@) {
        ErrorModel::MultiDocument
    } else {
        ErrorModel::Yaml(message)
    }
}

/// What reading a text gives: blank text is an error; otherwise the parsed
/// tree (see `yaml_load`) decoded under the registry.
pub open spec fn parse_text(input: Seq<char>, reg: RegistryModel) -> Result<Seq<StateContent>, ErrorModel> {
    if is_blank(input) {
        Err(ErrorModel::EmptyInput)
    } else {
        match yaml_load(input) {
            Err(m) => Err(load_failure(m)),
            Ok(doc) => decode_document(doc, reg),
        }
    }
}

// ------------------------------------------------------------------ encoding

/// A model value as a YAML value. IP values are written as their canonical
/// text; a non-negative `I64` is written as the integer it is.
pub open spec fn encode_value(v: ValueModel) -> DocModel
    decreases v,
{
    match v {
        ValueModel::Str(s) => DocModel::Str(s),
        ValueModel::U64(n) => DocModel::NonNegative(n),
        ValueModel::I64(n) => if n < 0 { DocModel::Negative(n) } else { DocModel::NonNegative(n as u64) },
        ValueModel::Bool(b) => DocModel::Bool(b),
        ValueModel::Ip(a) => DocModel::Str(ip_text(a)),
        ValueModel::Network(a, p) => DocModel::Str(network_text(a, p)),
        ValueModel::List(items) => DocModel::Sequence(encode_items(items)),
        ValueModel::Mapping(es) => DocModel::Mapping(encode_entries(es)),
    }
}

pub open spec fn encode_items(s: Seq<ValueModel>) -> Seq<DocModel>
    decreases s,
{
    if s.len() == 0 {
        Seq::empty()
    } else {
        encode_items(s.drop_last()).push(encode_value(s.last()))
    }
}

pub open spec fn encode_entries(s: Seq<(Seq<char>, ValueModel)>) -> Seq<(Seq<char>, DocModel)>
    decreases s,
{
    if s.len() == 0 {
        Seq::empty()
    } else {
        encode_entries(s.drop_last()).push((s.last().0, encode_value(s.last().1)))
    }
}

/// A `match:` entry for a set selector field; nothing for an unset one.
pub open spec fn optional_entry(key: Seq<char>, o: Option<Seq<char>>) -> Seq<(Seq<char>, DocModel)> {
    match o {
        Some(s) => seq![(key, DocModel::Str(s))],
        None => Seq::empty(),
    }
}

/// The `match:` mapping: fixed key order, unset fields omitted.
pub open spec fn encode_match(m: MatchView) -> Seq<(Seq<char>, DocModel)> {
    optional_entry("name"@, m.name) + optional_entry("type"@, m.device_type) + optional_entry("driver"@, m.driver)
        + optional_entry("pci_path"@, m.pci_path) + optional_entry("mac"@, m.mac)
}

/// Whether `type:` is left out: always for an empty device type, and in the
/// policy format when a technology sub-object already implies it.
pub open spec fn omit_type(c: StateContent, include_match: bool, reg: RegistryModel) -> bool {
    c.device_type.len() == 0 || (include_match && implied_device_type(reg, c.fields) == Some(c.device_type))
}

/// One state as a YAML mapping: the `match:` section (policy format only),
/// then `type:` unless omitted, then the fields in order.
pub open spec fn encode_state(c: StateContent, include_match: bool, reg: RegistryModel) -> DocModel {
    DocModel::Mapping(match_part(c, include_match) + type_part(c, include_match, reg) + encode_entries(c.fields))
}

/// The `match:` entry of a state's mapping (policy format only).
pub open spec fn match_part(c: StateContent, include_match: bool) -> Seq<(Seq<char>, DocModel)> {
    if include_match { seq![("match"@, DocModel::Mapping(encode_match(c.match_spec)))] } else { Seq::empty() }
}

/// The `type:` entry of a state's mapping, unless omitted.
pub open spec fn type_part(c: StateContent, include_match: bool, reg: RegistryModel) -> Seq<(Seq<char>, DocModel)> {
    if omit_type(c, include_match, reg) { Seq::empty() } else { seq![("type"@, DocModel::Str(c.device_type))] }
}

/// The reserved top-level names: `match`, `type` and `kind`.
pub open spec fn is_reserved_key(k: Seq<char>) -> bool {
    k == "match"@ || k == "type"@ || k == "kind"@
}

/// The first field name that is reserved, if any.
pub open spec fn first_reserved(fields: Seq<(Seq<char>, ValueModel)>) -> Option<Seq<char>>
    decreases fields.len(),
{
    if fields.len() == 0 {
        None
    } else if is_reserved_key(fields[0].0) {
        Some(fields[0].0)
    } else {
        first_reserved(fields.drop_first())
    }
}

/// One state at list position `index` as a YAML mapping, unless a field
/// name is reserved.
pub open spec fn state_document(c: StateContent, index: int, include_match: bool, reg: RegistryModel) -> Result<DocModel, ErrorModel> {
    match first_reserved(c.fields) {
        Some(k) => Err(ErrorModel::ReservedFieldKey(k, index as usize)),
        None => Ok(encode_state(c, include_match, reg)),
    }
}

/// The states' mappings, in order; the first refused state's error.
pub open spec fn state_documents(cs: Seq<StateContent>, include_match: bool, reg: RegistryModel) -> Result<Seq<DocModel>, ErrorModel>
    decreases cs.len(),
{
    if cs.len() == 0 {
        Ok(Seq::empty())
    } else {
        match state_documents(cs.drop_last(), include_match, reg) {
            Err(e) => Err(e),
            Ok(ds) => match state_document(cs.last(), cs.len() - 1, include_match, reg) {
                Ok(d) => Ok(ds.push(d)),
                Err(e) => Err(e),
            },
        }
    }
}

/// The document for a list of states: one state is a single top-level
/// mapping; any other number a top-level sequence, one entry per state.
pub open spec fn render_document(cs: Seq<StateContent>, include_match: bool, reg: RegistryModel) -> Result<DocModel, ErrorModel> {
    if cs.len() == 1 {
        state_document(cs[0], 0, include_match, reg)
    } else {
        match state_documents(cs, include_match, reg) {
            Ok(ds) => Ok(DocModel::Sequence(ds)),
            Err(e) => Err(e),
        }
    }
}

/// The text written for a list of states: the document (see
/// [`render_document`]) as `serde_yaml` writes it (see `yaml_dump`).
pub open spec fn render_text(cs: Seq<StateContent>, include_match: bool, reg: RegistryModel) -> Result<Seq<char>, ErrorModel> {
    match render_document(cs, include_match, reg) {
        Err(e) => Err(e),
        Ok(d) => match yaml_dump(d) {
            Ok(t) => Ok(t),
            Err(m) => Err(ErrorModel::Yaml(m)),
        },
    }
}


// ------------------------------------------------------------ decoding code

/// The content of a text result.
pub open spec fn text_result(r: Result<String, Error>) -> Result<Seq<char>, ErrorModel> {
    match r {
        Ok(s) => Ok(s@),
        Err(e) => Err(e@),
    }
}

/// The content of a value result.
pub open spec fn value_result(r: Result<Value, Error>) -> Result<ValueModel, ErrorModel> {
    match r {
        Ok(v) => Ok(v@),
        Err(e) => Err(e@),
    }
}

/// The content of a selector result.
pub open spec fn match_result(r: Result<Match, Error>) -> Result<MatchView, ErrorModel> {
    match r {
        Ok(m) => Ok(m@),
        Err(e) => Err(e@),
    }
}

/// The content of a result that carries nothing on success.
pub open spec fn unit_result(r: Result<(), Error>) -> Result<(), ErrorModel> {
    match r {
        Ok(_) => Ok(()),
        Err(e) => Err(e@),
    }
}

fn shape(y: &YamlNode) -> (r: String)
    ensures
        r@ == shape_text(y@),
{
    match y {
        YamlNode::Null => string_of("null"),
        YamlNode::Bool(_) => string_of("a boolean"),
        YamlNode::Number(_) => string_of("a number"),
        YamlNode::String(_) => string_of("a string"),
        YamlNode::Sequence(_) => string_of("a sequence"),
        YamlNode::Mapping(_) => string_of("a mapping"),
        YamlNode::Tagged(_) => string_of("a tagged value"),
    }
}

/// The value under any tags.
fn untagged(y: &YamlNode) -> (r: &YamlNode)
    ensures
        r@ == untag(y@),
    decreases y,
{
    match y {
        YamlNode::Tagged(b) => untagged(&**b),
        _ => y,
    }
}

/// Renders a mapping key to its string form: strings as-is, numbers and
/// booleans by their canonical text; null, sequence, mapping and tagged keys
/// have no usable string form.
fn key_to_string(k: &YamlNode) -> (r: Result<String, Error>)
    ensures
        text_result(r) == key_text(k@),
{
    let r = match k {
        YamlNode::String(s) => Ok(s.clone()),
        YamlNode::Number(YamlNumber::NonNegative(n)) => Ok(decimal_string(*n)),
        YamlNode::Number(YamlNumber::Negative(n)) => {
            let mut s = String::new();
            push_signed_decimal(&mut s, *n);
            assert(s@ =~= signed_decimal(*n as int));
            Ok(s)
        },
        YamlNode::Number(YamlNumber::Float(t)) => Ok(t.clone()),
        YamlNode::Bool(b) => if *b {
            proof { reveal_strlit("true"); }
            let t = string_of("true");
            assert(t@ == bool_text(true));
            Ok(t)
        } else {
            proof { reveal_strlit("false"); }
            let t = string_of("false");
            assert(t@ == bool_text(false));
            Ok(t)
        },
        _ => Err(Error::InvalidFieldKey(shape(k))),
    };
    r
}

/// Checks the `kind` discriminator: `state` passes, `policy` is the policy
/// format (parsed elsewhere), anything else is an error.
fn parse_kind(y: &YamlNode) -> (r: Result<(), Error>)
    ensures
        unit_result(r) == check_kind(y@),
{
    match y {
        YamlNode::String(k) => if same_text(k.as_str(), "state") {
            Ok(())
        } else if same_text(k.as_str(), "policy") {
            Err(Error::PolicyWrapperNotSupported)
        } else {
            Err(Error::UnknownKind(k.clone()))
        },
        _ => Err(Error::UnknownKind(shape(y))),
    }
}

proof fn lemma_match_pairs_err(pairs: Seq<(YamlModel, YamlModel)>, n: int, e: ErrorModel)
    requires
        0 <= n <= pairs.len(),
        decode_match_pairs(pairs.take(n)) == Err::<MatchView, ErrorModel>(e),
    ensures
        decode_match_pairs(pairs) == Err::<MatchView, ErrorModel>(e),
    decreases pairs.len() - n,
{
    if n < pairs.len() {
        assert(pairs.take(n + 1).drop_last() =~= pairs.take(n));
        lemma_match_pairs_err(pairs, n + 1, e);
    } else {
        assert(pairs.take(n) =~= pairs);
    }
}

/// Parses a `match:` section: a mapping whose keys are the selector fields
/// and whose values are strings.
fn parse_match(y: &YamlNode) -> (r: Result<Match, Error>)
    ensures
        match_result(r) == decode_match(y@),
{
    let pairs = match untagged(y) {
        YamlNode::Mapping(pairs) => pairs,
        _ => return Err(Error::MatchNotMapping),
    };
    let ghost ps = pair_models(pairs@);
    proof { lemma_pair_models(pairs@); }
    let mut m = Match::empty();
    let mut i: usize = 0;
    assert(ps.take(0) =~= Seq::<(YamlModel, YamlModel)>::empty());
    while i < pairs.len()
        invariant
            untag(y@) == YamlModel::Mapping(ps),
            i <= pairs.len(),
            ps == pair_models(pairs@),
            ps.len() == pairs.len(),
            forall|k: int| 0 <= k < pairs.len() ==> #[trigger] ps[k] == (pairs@[k].0@, pairs@[k].1@),
            decode_match_pairs(ps.take(i as int)) == Ok::<MatchView, ErrorModel>(m@),
        decreases pairs.len() - i,
    {
        let ghost t = ps.take(i + 1);
        assert(t.drop_last() =~= ps.take(i as int));
        assert(t.last() == ps[i as int]);
        let key = match key_to_string(&pairs[i].0) {
            Ok(k) => k,
            Err(e) => {
                proof { lemma_match_pairs_err(ps, i + 1, e@); }
                return Err(e);
            },
        };
        let s = match untagged(&pairs[i].1) {
            YamlNode::String(s) => s,
            _ => {
                let err = Error::MatchValueNotString { key };
                proof { lemma_match_pairs_err(ps, i + 1, err@); }
                return Err(err);
            },
        };
        let k = key.as_str();
        if same_text(k, "name") {
            m.name = Some(s.clone());
        } else if same_text(k, "type") {
            m.device_type = Some(s.clone());
        } else if same_text(k, "driver") {
            m.driver = Some(s.clone());
        } else if same_text(k, "pci_path") {
            m.pci_path = Some(s.clone());
        } else if same_text(k, "mac") {
            m.mac = Some(s.clone());
        } else {
            let err = Error::UnknownMatchKey(key.clone());
            proof { lemma_match_pairs_err(ps, i + 1, err@); }
            return Err(err);
        }
        i = i + 1;
    }
    assert(ps.take(pairs.len() as int) =~= ps);
    Ok(m)
}


proof fn lemma_items_err(items: Seq<YamlModel>, schema: Option<SchemaModel>, n: int, e: ErrorModel)
    requires
        0 <= n <= items.len(),
        decode_items(items.take(n), schema) == Err::<Seq<ValueModel>, ErrorModel>(e),
    ensures
        decode_items(items, schema) == Err::<Seq<ValueModel>, ErrorModel>(e),
    decreases items.len() - n,
{
    if n < items.len() {
        assert(items.take(n + 1).drop_last() =~= items.take(n));
        lemma_items_err(items, schema, n + 1, e);
    } else {
        assert(items.take(n) =~= items);
    }
}

proof fn lemma_pairs_err(pairs: Seq<(YamlModel, YamlModel)>, schema: Option<SchemaModel>, n: int, e: ErrorModel)
    requires
        0 <= n <= pairs.len(),
        decode_pairs(pairs.take(n), schema) == Err::<Seq<(Seq<char>, ValueModel)>, ErrorModel>(e),
    ensures
        decode_pairs(pairs, schema) == Err::<Seq<(Seq<char>, ValueModel)>, ErrorModel>(e),
    decreases pairs.len() - n,
{
    if n < pairs.len() {
        assert(pairs.take(n + 1).drop_last() =~= pairs.take(n));
        lemma_pairs_err(pairs, schema, n + 1, e);
    } else {
        assert(pairs.take(n) =~= pairs);
    }
}

/// Converts a YAML value using the schema governing its path.
pub fn value_to_model(y: &YamlNode, schema: Option<&SchemaNode>) -> (r: Result<Value, Error>)
    ensures
        value_result(r) == decode_value(y@, opt_schema(schema)),
    decreases y,
{
    match y {
        YamlNode::Null => Err(Error::UnsupportedScalar { kind: string_of("null") }),
        YamlNode::Bool(b) => Ok(Value::Bool(*b)),
        YamlNode::Number(YamlNumber::NonNegative(n)) => Ok(Value::U64(*n)),
        YamlNode::Number(YamlNumber::Negative(n)) => if *n < 0 {
            Ok(Value::I64(*n))
        } else {
            Ok(Value::U64(*n as u64))
        },
        YamlNode::Number(YamlNumber::Float(_)) => Err(Error::UnsupportedScalar { kind: string_of("float") }),
        YamlNode::String(s) => Ok(decode_string_at(schema, s)),
        YamlNode::Sequence(items) => {
            let item_schema = items_of(schema);
            let ghost ys = yaml_models(items@);
            let ghost sch = opt_schema(item_schema);
            proof { lemma_yaml_models(items@); }
            let mut out: Vec<Value> = Vec::new();
            let mut i: usize = 0;
            assert(ys.take(0) =~= Seq::<YamlModel>::empty());
            assert(value_models(out@) =~= Seq::<ValueModel>::empty());
            while i < items.len()
                invariant
                    *y == YamlNode::Sequence(*items),
                    y@ == YamlModel::Sequence(ys),
                    sch == items_schema(opt_schema(schema)),
                    sch == opt_schema(item_schema),
                    i <= items.len(),
                    ys == yaml_models(items@),
                    ys.len() == items.len(),
                    forall|k: int| 0 <= k < items.len() ==> #[trigger] ys[k] == items@[k]@,
                    decode_items(ys.take(i as int), sch) == Ok::<Seq<ValueModel>, ErrorModel>(value_models(out@)),
                decreases items.len() - i,
            {
                let ghost t = ys.take(i + 1);
                assert(t.drop_last() =~= ys.take(i as int));
                assert(t.last() == ys[i as int]);
                assert(decreases_to!(*y => (*y)->Sequence_0));
                assert(decreases_to!(items => items@[i as int]));
                match value_to_model(&items[i], item_schema) {
                    Ok(v) => {
                        let ghost before = out@;
                        out.push(v);
                        assert(out@.drop_last() =~= before);
                    },
                    Err(e) => {
                        proof { lemma_items_err(ys, sch, i + 1, e@); }
                        return Err(e);
                    },
                }
                i = i + 1;
            }
            assert(ys.take(items.len() as int) =~= ys);
            Ok(Value::List(out))
        },
        YamlNode::Mapping(pairs) => {
            let ghost ps = pair_models(pairs@);
            let ghost sch = opt_schema(schema);
            proof { lemma_pair_models(pairs@); }
            let mut out = FieldMap::new();
            let mut i: usize = 0;
            assert(ps.take(0) =~= Seq::<(YamlModel, YamlModel)>::empty());
            while i < pairs.len()
                invariant
                    *y == YamlNode::Mapping(*pairs),
                    y@ == YamlModel::Mapping(ps),
                    sch == opt_schema(schema),
                    i <= pairs.len(),
                    ps == pair_models(pairs@),
                    ps.len() == pairs.len(),
                    forall|k: int| 0 <= k < pairs.len() ==> #[trigger] ps[k] == (pairs@[k].0@, pairs@[k].1@),
                    decode_pairs(ps.take(i as int), sch) == Ok::<Seq<(Seq<char>, ValueModel)>, ErrorModel>(out@),
                decreases pairs.len() - i,
            {
                let ghost t = ps.take(i + 1);
                assert(t.drop_last() =~= ps.take(i as int));
                assert(t.last() == ps[i as int]);
                let key = match key_to_string(&pairs[i].0) {
                    Ok(k) => k,
                    Err(e) => {
                        proof { lemma_pairs_err(ps, sch, i + 1, e@); }
                        return Err(e);
                    },
                };
                let child = property_of(schema, key.as_str());
                assert(decreases_to!(*y => (*y)->Mapping_0));
                assert(decreases_to!(pairs => pairs@[i as int]));
                assert(decreases_to!(pairs@[i as int] => pairs@[i as int].1));
                match value_to_model(&pairs[i].1, child) {
                    Ok(v) => {
                        out.insert(key, v);
                    },
                    Err(e) => {
                        proof { lemma_pairs_err(ps, sch, i + 1, e@); }
                        return Err(e);
                    },
                }
                i = i + 1;
            }
            assert(ps.take(pairs.len() as int) =~= ps);
            Ok(Value::Mapping(out))
        },
        YamlNode::Tagged(_) => Err(Error::Yaml(string_of("tagged YAML values are not supported"))),
    }
}


/// The contents of a list of states.
pub open spec fn contents(s: Seq<State>) -> Seq<StateContent> {
    s.map_values(|st: State| state_content(st))
}

/// The content of a result holding states.
pub open spec fn states_result(r: Result<Vec<State>, Error>) -> Result<Seq<StateContent>, ErrorModel> {
    match r {
        Ok(v) => Ok(contents(v@)),
        Err(e) => Err(e@),
    }
}

/// The runtime fields of a state read from YAML: a `Static` source naming no
/// policy, the static default priority, and a version-7 UUID of the RFC 4122
/// variant as its id.
pub open spec fn has_parsed_runtime(st: State) -> bool {
    &&& st.source matches Source::Static { policy } && policy@.len() == 0
    &&& st.priority == 100
    &&& uuid_version(st.metadata.id) == 7
    &&& uuid_variant(st.metadata.id) == UuidVariant::Rfc4122
}

/// Every state in a result holding states has the runtime fields of a parsed state.
pub open spec fn all_parsed_runtime(r: Result<Vec<State>, Error>) -> bool {
    r matches Ok(v) ==> forall|i: int| 0 <= i < v@.len() ==> #[trigger] has_parsed_runtime(v@[i])
}

proof fn lemma_state_pairs_err(pairs: Seq<(YamlModel, YamlModel)>, reg: RegistryModel, n: int, e: ErrorModel)
    requires
        0 <= n <= pairs.len(),
        decode_state_pairs(pairs.take(n), reg) == Err::<StateContent, ErrorModel>(e),
    ensures
        decode_state_pairs(pairs, reg) == Err::<StateContent, ErrorModel>(e),
    decreases pairs.len() - n,
{
    if n < pairs.len() {
        assert(pairs.take(n + 1).drop_last() =~= pairs.take(n));
        lemma_state_pairs_err(pairs, reg, n + 1, e);
    } else {
        assert(pairs.take(n) =~= pairs);
    }
}

/// Converts one device mapping to a state: routes the reserved top-level
/// keys, converts the rest to fields, and applies the technology sub-object
/// to device type implication.
fn mapping_to_state(pairs: &Vec<(YamlNode, YamlNode)>, registry: &SchemaRegistry) -> (r: Result<State, Error>)
    ensures
        match r {
            Ok(st) => decode_state(pair_models(pairs@), registry@) == Ok::<StateContent, ErrorModel>(state_content(st))
                && has_parsed_runtime(st),
            Err(e) => decode_state(pair_models(pairs@), registry@) == Err::<StateContent, ErrorModel>(e@),
        },
{
    let ghost ps = pair_models(pairs@);
    let ghost reg = registry@;
    proof { lemma_pair_models(pairs@); }
    let mut device_type = String::new();
    let mut match_spec = Match::empty();
    let mut fields = new_fields();
    let mut i: usize = 0;
    assert(ps.take(0) =~= Seq::<(YamlModel, YamlModel)>::empty());
    assert(device_type@ =~= Seq::<char>::empty());
    while i < pairs.len()
        invariant
            i <= pairs.len(),
            reg == registry@,
            ps == pair_models(pairs@),
            ps.len() == pairs.len(),
            forall|k: int| 0 <= k < pairs.len() ==> #[trigger] ps[k] == (pairs@[k].0@, pairs@[k].1@),
            decode_state_pairs(ps.take(i as int), reg) == Ok::<StateContent, ErrorModel>(
                StateContent { device_type: device_type@, match_spec: match_spec@, fields: field_entries(fields) }),
        decreases pairs.len() - i,
    {
        let ghost t = ps.take(i + 1);
        assert(t.drop_last() =~= ps.take(i as int));
        assert(t.last() == ps[i as int]);
        let key = match key_to_string(&pairs[i].0) {
            Ok(k) => k,
            Err(e) => {
                proof { lemma_state_pairs_err(ps, reg, i + 1, e@); }
                return Err(e);
            },
        };
        let value = &pairs[i].1;
        if same_text(key.as_str(), "match") {
            match parse_match(value) {
                Ok(m) => match_spec = m,
                Err(e) => {
                    proof { lemma_state_pairs_err(ps, reg, i + 1, e@); }
                    return Err(e);
                },
            }
        } else if same_text(key.as_str(), "kind") {
            match parse_kind(value) {
                Ok(_) => {},
                Err(e) => {
                    proof { lemma_state_pairs_err(ps, reg, i + 1, e@); }
                    return Err(e);
                },
            }
        } else if same_text(key.as_str(), "type") {
            match untagged(value) {
                YamlNode::String(s) => device_type = s.clone(),
                _ => {
                    let err = Error::UnsupportedScalar { kind: shape(value) };
                    proof { lemma_state_pairs_err(ps, reg, i + 1, err@); }
                    return Err(err);
                },
            }
        } else {
            match value_to_model(value, registry.top_level(key.as_str())) {
                Ok(v) => {
                    insert_field(&mut fields, key, v);
                },
                Err(e) => {
                    proof { lemma_state_pairs_err(ps, reg, i + 1, e@); }
                    return Err(e);
                },
            }
        }
        i = i + 1;
    }
    assert(ps.take(pairs.len() as int) =~= ps);
    if device_type.as_str().is_empty() {
        match registry.implied_device_type(&fields) {
            Some(t) => device_type = t,
            None => {},
        }
    }
    let source = Source::Static { policy: String::new() };
    let priority = source.default_priority();
    Ok(State { device_type, match_spec, fields, source, priority, metadata: StateMetadata::new() })
}

proof fn lemma_state_list_err(items: Seq<YamlModel>, reg: RegistryModel, n: int, e: ErrorModel)
    requires
        0 <= n <= items.len(),
        decode_state_list(items.take(n), reg) == Err::<Seq<StateContent>, ErrorModel>(e),
    ensures
        decode_state_list(items, reg) == Err::<Seq<StateContent>, ErrorModel>(e),
    decreases items.len() - n,
{
    if n < items.len() {
        assert(items.take(n + 1).drop_last() =~= items.take(n));
        lemma_state_list_err(items, reg, n + 1, e);
    } else {
        assert(items.take(n) =~= items);
    }
}

fn list_element_message(i: usize, y: &YamlNode) -> (r: String)
    ensures
        ErrorModel::InvalidTopLevel(r@) == list_element_error(i as int, y@),
{
    let mut s = String::new();
    push_str(&mut s, "list element ");
    push_decimal(&mut s, i as u64);
    push_str(&mut s, " is ");
    push_str(&mut s, shape(y).as_str());
    push_str(&mut s, ", not a mapping");
    assert(s@ =~= "list element "@ + decimal(i as nat) + " is "@ + shape_text(y@) + ", not a mapping"@);
    s
}

/// Converts a parsed document to states: a mapping is one state, a sequence
/// one state per element in order, anything else an invalid top level.
pub fn states_from_document(doc: &YamlNode, registry: &SchemaRegistry) -> (r: Result<Vec<State>, Error>)
    ensures
        states_result(r) == decode_document(doc@, registry@),
        all_parsed_runtime(r),
{
    match doc {
        YamlNode::Mapping(pairs) => match mapping_to_state(pairs, registry) {
            Ok(st) => {
                let mut v: Vec<State> = Vec::new();
                v.push(st);
                assert(contents(v@) =~= seq![state_content(st)]);
                Ok(v)
            },
            Err(e) => Err(e),
        },
        YamlNode::Sequence(items) => {
            let ghost ys = yaml_models(items@);
            let ghost reg = registry@;
            proof { lemma_yaml_models(items@); }
            let mut out: Vec<State> = Vec::new();
            let mut i: usize = 0;
            assert(ys.take(0) =~= Seq::<YamlModel>::empty());
            assert(contents(out@) =~= Seq::<StateContent>::empty());
            while i < items.len()
                invariant
                    doc@ == YamlModel::Sequence(ys),
                    reg == registry@,
                    i <= items.len(),
                    ys == yaml_models(items@),
                    ys.len() == items.len(),
                    forall|k: int| 0 <= k < items.len() ==> #[trigger] ys[k] == items@[k]@,
                    decode_state_list(ys.take(i as int), reg) == Ok::<Seq<StateContent>, ErrorModel>(contents(out@)),
                    forall|k: int| 0 <= k < out@.len() ==> #[trigger] has_parsed_runtime(out@[k]),
                decreases items.len() - i,
            {
                let ghost t = ys.take(i + 1);
                assert(t.drop_last() =~= ys.take(i as int));
                assert(t.last() == ys[i as int]);
                match &items[i] {
                    YamlNode::Mapping(pairs) => match mapping_to_state(pairs, registry) {
                        Ok(st) => {
                            let ghost before = out@;
                            out.push(st);
                            assert(contents(out@) =~= contents(before).push(state_content(st)));
                        },
                        Err(e) => {
                            proof { lemma_state_list_err(ys, reg, i + 1, e@); }
                            return Err(e);
                        },
                    },
                    other => {
                        let err = Error::InvalidTopLevel(list_element_message(i, other));
                        proof { lemma_state_list_err(ys, reg, i + 1, err@); }
                        return Err(err);
                    },
                }
                i = i + 1;
            }
            assert(ys.take(items.len() as int) =~= ys);
            Ok(out)
        },
        other => Err(Error::InvalidTopLevel(shape(other))),
    }
}

/// Converts what the YAML parser returned to states: a refused text is an
/// error (a second document reported as such), a parsed document is
/// converted by [`states_from_document`].
pub fn states_from_loaded(loaded: Result<YamlNode, String>, registry: &SchemaRegistry) -> (r: Result<Vec<State>, Error>)
    ensures
        states_result(r) == match loaded {
            Err(m) => Err::<Seq<StateContent>, ErrorModel>(load_failure(m@)),
            Ok(doc) => decode_document(doc@, registry@),
        },
        all_parsed_runtime(r),
{
    match loaded {
        Err(message) => {
            if contains(message.as_str(), "more than one document") {
                Err(Error::MultiDocument)
            } else {
                Err(Error::Yaml(message))
            }
        },
        Ok(doc) => states_from_document(&doc, registry),
    }
}

/// Reads a YAML text into an ordered list of states under a schema registry.
pub fn from_yaml_with_registry(input: &str, registry: &SchemaRegistry) -> (r: Result<Vec<State>, Error>)
    ensures
        states_result(r) == parse_text(input@, registry@),
        all_parsed_runtime(r),
{
    if blank(input) {
        return Err(Error::EmptyInput);
    }
    let loaded = load_yaml(input);
    states_from_loaded(loaded, registry)
}

/// Deserializes a YAML document into an ordered list of states.
///
/// A top-level mapping produces exactly one state; a top-level sequence one
/// state per element, in list order. A second document (`---`) is an error;
/// a leading `---` on the single document is accepted. Empty or
/// whitespace-only input is an error; an explicit `[]` yields zero states.
pub fn from_yaml(input: &str) -> (r: Result<Vec<State>, Error>)
    ensures
        states_result(r) == parse_text(input@, embedded_registry_model()),
        all_parsed_runtime(r),
{
    let registry = SchemaRegistry::embedded();
    from_yaml_with_registry(input, &registry)
}


// ------------------------------------------------------------ encoding code

/// The content of a document result.
pub open spec fn doc_result(r: Result<YamlDoc, Error>) -> Result<DocModel, ErrorModel> {
    match r {
        Ok(d) => Ok(d@),
        Err(e) => Err(e@),
    }
}

/// Converts a model value to its YAML form. IP values become their
/// canonical text; only a formatted schema path turns that text back into an
/// IP value. A stable value's form decodes back to it (see
/// [`crate::roundtrip::lemma_value_reads_back`]).
pub fn model_to_value(v: &Value) -> (r: YamlDoc)
    ensures
        r@ == encode_value(v@),
        maps_distinct(v@),
    decreases v,
{
    match v {
        Value::String(s) => YamlDoc::String(s.clone()),
        Value::U64(n) => YamlDoc::NonNegative(*n),
        Value::I64(n) => if *n < 0 {
            YamlDoc::Negative(*n)
        } else {
            YamlDoc::NonNegative(*n as u64)
        },
        Value::Bool(b) => YamlDoc::Bool(*b),
        Value::IpAddr(a) => {
            let mut s = String::new();
            push_ip(&mut s, a);
            assert(s@ =~= ip_text(*a));
            YamlDoc::String(s)
        },
        Value::IpNetwork(n) => {
            let mut s = String::new();
            push_network(&mut s, &n.0, n.1);
            assert(s@ =~= network_text(n.0, n.1));
            YamlDoc::String(s)
        },
        Value::List(items) => {
            let ghost ms = value_models(items@);
            proof { lemma_value_models(items@); }
            let mut out: Vec<YamlDoc> = Vec::new();
            let mut i: usize = 0;
            assert(ms.take(0) =~= Seq::<ValueModel>::empty());
            assert(doc_models(out@) =~= Seq::<DocModel>::empty());
            while i < items.len()
                invariant
                    *v == Value::List(*items),
                    i <= items.len(),
                    ms == value_models(items@),
                    ms.len() == items.len(),
                    forall|k: int| 0 <= k < items.len() ==> #[trigger] ms[k] == items@[k]@,
                    doc_models(out@) == encode_items(ms.take(i as int)),
                    forall|k: int| 0 <= k < i ==> maps_distinct(#[trigger] ms[k]),
                decreases items.len() - i,
            {
                let ghost t = ms.take(i + 1);
                assert(t.drop_last() =~= ms.take(i as int));
                assert(t.last() == ms[i as int]);
                assert(decreases_to!(*v => (*v)->List_0));
                assert(decreases_to!(items => items@[i as int]));
                let d = model_to_value(&items[i]);
                let ghost before = out@;
                out.push(d);
                assert(out@.drop_last() =~= before);
                i = i + 1;
            }
            assert(ms.take(items.len() as int) =~= ms);
            assert(v@ == ValueModel::List(ms));
            YamlDoc::Sequence(out)
        },
        Value::Mapping(m) => {
            let ghost es = m@;
            let n = m.len();
            let mut out: Vec<(String, YamlDoc)> = Vec::new();
            let mut i: usize = 0;
            assert(es.take(0) =~= Seq::<(Seq<char>, ValueModel)>::empty());
            assert(doc_entry_models(out@) =~= Seq::<(Seq<char>, DocModel)>::empty());
            while i < n
                invariant
                    *v == Value::Mapping(*m),
                    i <= n,
                    n == es.len(),
                    es == m@,
                    keys_distinct(es),
                    doc_entry_models(out@) == encode_entries(es.take(i as int)),
                    forall|k: int| 0 <= k < i ==> maps_distinct(#[trigger] es[k].1),
                decreases n - i,
            {
                let ghost t = es.take(i + 1);
                assert(t.drop_last() =~= es.take(i as int));
                assert(t.last() == es[i as int]);
                let (k, item) = m.entry_at(i);
                assert(decreases_to!(*v => (*v)->Mapping_0));
                let d = model_to_value(item);
                let ghost before = out@;
                out.push((k.clone(), d));
                assert(out@.drop_last() =~= before);
                i = i + 1;
            }
            assert(es.take(n as int) =~= es);
            assert(v@ == ValueModel::Mapping(es));
            YamlDoc::Mapping(out)
        },
    }
}


fn push_match_entry(out: &mut Vec<(String, YamlDoc)>, key: &str, value: &Option<String>)
    ensures
        doc_entry_models(final(out)@) == doc_entry_models(old(out)@) + optional_entry(key@, opt_text(*value)),
{
    proof { lemma_doc_entry_models(out@); }
    match value {
        Some(v) => {
            out.push((string_of(key), YamlDoc::String(v.clone())));
            proof { lemma_doc_entry_models(out@); }
            assert(doc_entry_models(out@) =~= doc_entry_models(old(out)@) + optional_entry(key@, opt_text(*value)));
        },
        None => {
            assert(doc_entry_models(out@) =~= doc_entry_models(old(out)@) + optional_entry(key@, opt_text(*value)));
        },
    }
}

proof fn lemma_first_reserved_step(fs: Seq<(Seq<char>, ValueModel)>, i: int)
    requires
        0 <= i < fs.len(),
    ensures
        fs.subrange(i, fs.len() as int).drop_first() == fs.subrange(i + 1, fs.len() as int),
        fs.subrange(i, fs.len() as int)[0] == fs[i],
{
    assert(fs.subrange(i, fs.len() as int).drop_first() =~= fs.subrange(i + 1, fs.len() as int));
}

/// Converts one state to a YAML mapping: the `match:` section (policy format
/// only), `type:` unless omitted, then the fields in order. A field whose
/// name is `match`, `type` or `kind` is refused.
fn state_to_mapping(state: &State, index: usize, include_match: bool, registry: &SchemaRegistry) -> (r: Result<YamlDoc, Error>)
    ensures
        doc_result(r) == state_document(state_content(*state), index as int, include_match, registry@),
        r is Ok ==> names_distinct_throughout(state_content(*state)),
{
    let ghost c = state_content(*state);
    let ghost fs = field_entries(state.fields);
    let n = fields_len(&state.fields);
    let mut i: usize = 0;
    assert(fs.subrange(0, n as int) =~= fs);
    while i < n
        invariant
            i <= n,
            n == fs.len(),
            fs == field_entries(state.fields),
            forall|k: int, j: int| 0 <= k < i && 0 <= j < n && j != k ==> #[trigger] fs[j].0 != #[trigger] fs[k].0,
            first_reserved(fs) == first_reserved(fs.subrange(i as int, n as int)),
        decreases n - i,
    {
        proof { lemma_first_reserved_step(fs, i as int); }
        if let Some((k, _)) = field_at(&state.fields, i) {
            let ks = k.as_str();
            if same_text(ks, "match") || same_text(ks, "type") || same_text(ks, "kind") {
                return Err(Error::ReservedFieldKey { key: k.clone(), state_index: index });
            }
        }
        i = i + 1;
    }
    assert(fs.subrange(n as int, n as int).len() == 0);
    assert(keys_distinct(fs));
    let mut entries: Vec<(String, YamlDoc)> = Vec::new();
    let ghost head: Seq<(Seq<char>, DocModel)> = match_part(c, include_match);
    if include_match {
        let mut m: Vec<(String, YamlDoc)> = Vec::new();
        assert(doc_entry_models(m@) =~= Seq::<(Seq<char>, DocModel)>::empty());
        push_match_entry(&mut m, "name", &state.match_spec.name);
        push_match_entry(&mut m, "type", &state.match_spec.device_type);
        push_match_entry(&mut m, "driver", &state.match_spec.driver);
        push_match_entry(&mut m, "pci_path", &state.match_spec.pci_path);
        push_match_entry(&mut m, "mac", &state.match_spec.mac);
        assert(doc_entry_models(m@) =~= encode_match(c.match_spec));
        entries.push((string_of("match"), YamlDoc::Mapping(m)));
        proof { lemma_doc_entry_models(entries@); }
        assert(doc_entry_models(entries@) =~= head);
    } else {
        assert(doc_entry_models(entries@) =~= head);
    }
    let implied = registry.implied_device_type(&state.fields);
    let type_is_implied = match &implied {
        Some(t) => t.eq(&state.device_type),
        None => false,
    };
    let omit = state.device_type.as_str().is_empty() || (include_match && type_is_implied);
    assert(omit == omit_type(c, include_match, registry@));
    let ghost mid: Seq<(Seq<char>, DocModel)> = head + type_part(c, include_match, registry@);
    if !omit {
        let ghost before = entries@;
        entries.push((string_of("type"), YamlDoc::String(state.device_type.clone())));
        proof {
            lemma_doc_entry_models(before);
            lemma_doc_entry_models(entries@);
        }
        assert(doc_entry_models(entries@) =~= mid);
    } else {
        assert(doc_entry_models(entries@) =~= mid);
    }
    let mut i: usize = 0;
    assert(fs.take(0) =~= Seq::<(Seq<char>, ValueModel)>::empty());
    assert(mid + encode_entries(fs.take(0)) =~= mid);
    while i < n
        invariant
            i <= n,
            n == fs.len(),
            fs == field_entries(state.fields),
            keys_distinct(fs),
            doc_entry_models(entries@) == mid + encode_entries(fs.take(i as int)),
            forall|k: int| 0 <= k < i ==> maps_distinct(#[trigger] fs[k].1),
        decreases n - i,
    {
        let ghost t = fs.take(i + 1);
        assert(t.drop_last() =~= fs.take(i as int));
        assert(t.last() == fs[i as int]);
        if let Some((k, item)) = field_at(&state.fields, i) {
            let d = model_to_value(item);
            let ghost before = entries@;
            entries.push((k.clone(), d));
            assert(entries@.drop_last() =~= before);
            assert(doc_entry_models(entries@) =~= mid + encode_entries(t));
        }
        i = i + 1;
    }
    assert(fs.take(n as int) =~= fs);
    Ok(YamlDoc::Mapping(entries))
}

proof fn lemma_state_documents_err(cs: Seq<StateContent>, include_match: bool, reg: RegistryModel, n: int, e: ErrorModel)
    requires
        0 <= n <= cs.len(),
        state_documents(cs.take(n), include_match, reg) == Err::<Seq<DocModel>, ErrorModel>(e),
    ensures
        state_documents(cs, include_match, reg) == Err::<Seq<DocModel>, ErrorModel>(e),
    decreases cs.len() - n,
{
    if n < cs.len() {
        assert(cs.take(n + 1).drop_last() =~= cs.take(n));
        lemma_state_documents_err(cs, include_match, reg, n + 1, e);
    } else {
        assert(cs.take(n) =~= cs);
    }
}

/// The document for a list of states, built state by state.
fn render_states(states: &[State], include_match: bool, registry: &SchemaRegistry) -> (r: Result<YamlDoc, Error>)
    ensures
        doc_result(r) == render_document(contents(states@), include_match, registry@),
        r is Ok ==> forall|i: int| 0 <= i < states@.len() ==> names_distinct_throughout(#[trigger] contents(states@)[i]),
{
    let ghost cs = contents(states@);
    if states.len() == 1 {
        return state_to_mapping(&states[0], 0, include_match, registry);
    }
    let mut out: Vec<YamlDoc> = Vec::new();
    let mut i: usize = 0;
    assert(cs.take(0) =~= Seq::<StateContent>::empty());
    assert(doc_models(out@) =~= Seq::<DocModel>::empty());
    while i < states.len()
        invariant
            i <= states.len(),
            cs == contents(states@),
            cs.len() == states.len(),
            state_documents(cs.take(i as int), include_match, registry@) == Ok::<Seq<DocModel>, ErrorModel>(doc_models(out@)),
            forall|k: int| 0 <= k < i ==> names_distinct_throughout(#[trigger] cs[k]),
        decreases states.len() - i,
    {
        let ghost t = cs.take(i + 1);
        assert(t.drop_last() =~= cs.take(i as int));
        assert(t.last() == cs[i as int]);
        match state_to_mapping(&states[i], i, include_match, registry) {
            Ok(d) => {
                let ghost before = out@;
                out.push(d);
                assert(out@.drop_last() =~= before);
            },
            Err(e) => {
                proof { lemma_state_documents_err(cs, include_match, registry@, i + 1, e@); }
                return Err(e);
            },
        }
        i = i + 1;
    }
    assert(cs.take(states.len() as int) =~= cs);
    Ok(YamlDoc::Sequence(out))
}

/// The document for a list of states: one state is a single top-level
/// mapping; any other number a top-level sequence, one entry per state.
/// For stable states the document reads back as the states (see
/// [`read_back_contents`]), and writing what it reads back as builds the same
/// document again (in the query format, where no device type is left for
/// the fields to imply).
pub fn render(states: &[State], include_match: bool, registry: &SchemaRegistry) -> (r: Result<YamlDoc, Error>)
    ensures
        doc_result(r) == render_document(contents(states@), include_match, registry@),
        r matches Ok(d) ==> states_stable(contents(states@), registry@)
            ==> decode_document(doc_as_yaml(d@), registry@)
                == Ok::<Seq<StateContent>, ErrorModel>(read_back_contents(contents(states@), include_match, registry@)),
        r matches Ok(d) ==> states_stable(contents(states@), registry@)
            ==> (include_match || types_settled(contents(states@), registry@))
            ==> render_document(read_back_contents(contents(states@), include_match, registry@), include_match, registry@)
                == Ok::<DocModel, ErrorModel>(d@),
{
    let r = render_states(states, include_match, registry);
    proof {
        if r is Ok && states_stable(contents(states@), registry@) {
            lemma_stable_states_ready(contents(states@), registry@);
            lemma_document_roundtrip(contents(states@), include_match, registry@);
            if include_match || types_settled(contents(states@), registry@) {
                lemma_rewrite_same_document(contents(states@), include_match, registry@);
            }
        }
    }
    r
}

/// The text result of writing a document: a writer failure is a YAML error.
pub fn text_from_dump(dumped: Result<String, String>) -> (r: Result<String, Error>)
    ensures
        match dumped {
            Ok(t) => r matches Ok(u) && u@ == t@,
            Err(m) => r matches Err(e) && e@ == ErrorModel::Yaml(m@),
        },
{
    match dumped {
        Ok(t) => Ok(t),
        Err(m) => Err(Error::Yaml(m)),
    }
}

/// Serializes states in the query format under a registry. For stable
/// states, the document written reads back as the states without their
/// selectors, and where no device type is left for the fields to imply,
/// writing what it reads back as gives the same text.
pub fn to_yaml_query_with_registry(states: &[State], registry: &SchemaRegistry) -> (r: Result<String, Error>)
    ensures
        text_result(r) == render_text(contents(states@), false, registry@),
        r matches Ok(t) ==> states_stable(contents(states@), registry@)
            ==> (render_document(contents(states@), false, registry@) matches Ok(d)
                && decode_document(doc_as_yaml(d), registry@)
                    == Ok::<Seq<StateContent>, ErrorModel>(read_back_contents(contents(states@), false, registry@))),
        r matches Ok(t) ==> states_stable(contents(states@), registry@) ==> types_settled(contents(states@), registry@)
            ==> render_text(read_back_contents(contents(states@), false, registry@), false, registry@)
                == Ok::<Seq<char>, ErrorModel>(t@),
{
    match render(states, false, registry) {
        Err(e) => Err(e),
        Ok(doc) => {
            let dumped = dump_yaml(&doc);
            proof {
                if states_stable(contents(states@), registry@) && types_settled(contents(states@), registry@) {
                    lemma_rewrite_same_text(contents(states@), false, registry@);
                }
            }
            text_from_dump(dumped)
        },
    }
}

/// Serializes states in the policy format under a registry. For stable
/// states, the document written reads back as the states, and writing what
/// it reads back as gives the same text.
pub fn to_yaml_policy_with_registry(states: &[State], registry: &SchemaRegistry) -> (r: Result<String, Error>)
    ensures
        text_result(r) == render_text(contents(states@), true, registry@),
        r matches Ok(t) ==> states_stable(contents(states@), registry@)
            ==> (render_document(contents(states@), true, registry@) matches Ok(d)
                && decode_document(doc_as_yaml(d), registry@)
                    == Ok::<Seq<StateContent>, ErrorModel>(read_back_contents(contents(states@), true, registry@))),
        r matches Ok(t) ==> states_stable(contents(states@), registry@)
            ==> render_text(read_back_contents(contents(states@), true, registry@), true, registry@)
                == Ok::<Seq<char>, ErrorModel>(t@),
{
    match render(states, true, registry) {
        Err(e) => Err(e),
        Ok(doc) => {
            let dumped = dump_yaml(&doc);
            proof {
                if states_stable(contents(states@), registry@) {
                    lemma_rewrite_same_text(contents(states@), true, registry@);
                }
            }
            text_from_dump(dumped)
        },
    }
}

/// Serializes states in the query output format: `type:` and the fields at
/// the top level, no `match:` section.
pub fn to_yaml_query(states: &[State]) -> (r: Result<String, Error>)
    ensures
        text_result(r) == render_text(contents(states@), false, embedded_registry_model()),
        r matches Ok(t) ==> states_stable(contents(states@), embedded_registry_model())
            ==> (render_document(contents(states@), false, embedded_registry_model()) matches Ok(d)
                && decode_document(doc_as_yaml(d), embedded_registry_model())
                    == Ok::<Seq<StateContent>, ErrorModel>(read_back_contents(contents(states@), false, embedded_registry_model()))),
        r matches Ok(t) ==> states_stable(contents(states@), embedded_registry_model())
            ==> types_settled(contents(states@), embedded_registry_model())
            ==> render_text(read_back_contents(contents(states@), false, embedded_registry_model()), false, embedded_registry_model())
                == Ok::<Seq<char>, ErrorModel>(t@),
{
    let registry = SchemaRegistry::embedded();
    to_yaml_query_with_registry(states, &registry)
}

/// Serializes states in the policy format: a `match:` section identifying
/// the target, followed by the same fields as the query format.
pub fn to_yaml_policy(states: &[State]) -> (r: Result<String, Error>)
    ensures
        text_result(r) == render_text(contents(states@), true, embedded_registry_model()),
        r matches Ok(t) ==> states_stable(contents(states@), embedded_registry_model())
            ==> (render_document(contents(states@), true, embedded_registry_model()) matches Ok(d)
                && decode_document(doc_as_yaml(d), embedded_registry_model())
                    == Ok::<Seq<StateContent>, ErrorModel>(read_back_contents(contents(states@), true, embedded_registry_model()))),
        r matches Ok(t) ==> states_stable(contents(states@), embedded_registry_model())
            ==> render_text(read_back_contents(contents(states@), true, embedded_registry_model()), true, embedded_registry_model())
                == Ok::<Seq<char>, ErrorModel>(t@),
{
    let registry = SchemaRegistry::embedded();
    to_yaml_policy_with_registry(states, &registry)
}

} // verus!
