//! The YAML document trees the codec works on, and the calls into
//! `serde_yaml` that turn text into a tree and a tree into text.
use vstd::prelude::*;
use serde_yaml::Value as SerdeYamlValue;

verus! {

/// A YAML number as the parser reports it.
#[derive(Debug)]
pub enum YamlNumber {
    /// An integer of at least zero.
    NonNegative(u64),
    /// An integer below zero.
    Negative(i64),
    /// A floating-point number, by its canonical text.
    Float(String),
}

/// A parsed YAML value.
#[derive(Debug)]
pub enum YamlNode {
    Null,
    Bool(bool),
    Number(YamlNumber),
    String(String),
    Sequence(Vec<YamlNode>),
    /// Key-value pairs in document order.
    Mapping(Vec<(YamlNode, YamlNode)>),
    /// A value carrying an explicit `!tag`: the value under the tag.
    Tagged(Box<YamlNode>),
}

/// The content of a [`YamlNumber`].
pub enum NumberModel {
    NonNegative(u64),
    Negative(i64),
    Float(Seq<char>),
}

/// The content of a [`YamlNode`].
pub enum YamlModel {
    Null,
    Bool(bool),
    Number(NumberModel),
    Str(Seq<char>),
    Sequence(Seq<YamlModel>),
    Mapping(Seq<(YamlModel, YamlModel)>),
    Tagged(Box<YamlModel>),
}

pub open spec fn number_model(n: YamlNumber) -> NumberModel {
    match n {
        YamlNumber::NonNegative(u) => NumberModel::NonNegative(u),
        YamlNumber::Negative(i) => NumberModel::Negative(i),
        YamlNumber::Float(t) => NumberModel::Float(t@),
    }
}

pub open spec fn yaml_model(n: YamlNode) -> YamlModel
    decreases n,
{
    match n {
        YamlNode::Null => YamlModel::Null,
        YamlNode::Bool(b) => YamlModel::Bool(b),
        YamlNode::Number(x) => YamlModel::Number(number_model(x)),
        YamlNode::String(s) => YamlModel::Str(s@),
        YamlNode::Sequence(items) => YamlModel::Sequence(yaml_models(items@)),
        YamlNode::Mapping(pairs) => YamlModel::Mapping(pair_models(pairs@)),
        YamlNode::Tagged(b) => YamlModel::Tagged(Box::new(yaml_model(*b))),
    }
}

pub open spec fn yaml_models(s: Seq<YamlNode>) -> Seq<YamlModel>
    decreases s,
{
    if s.len() == 0 {
        Seq::empty()
    } else {
        yaml_models(s.drop_last()).push(yaml_model(s.last()))
    }
}

pub open spec fn pair_models(s: Seq<(YamlNode, YamlNode)>) -> Seq<(YamlModel, YamlModel)>
    decreases s,
{
    if s.len() == 0 {
        Seq::empty()
    } else {
        pair_models(s.drop_last()).push((yaml_model(s.last().0), yaml_model(s.last().1)))
    }
}

impl View for YamlNode {
    type V = YamlModel;

    open spec fn view(&self) -> YamlModel {
        yaml_model(*self)
    }
}

pub proof fn lemma_yaml_models(s: Seq<YamlNode>)
    ensures
        yaml_models(s).len() == s.len(),
        forall|i: int| 0 <= i < s.len() ==> #[trigger] yaml_models(s)[i] == s[i]@,
    decreases s.len(),
{
    if s.len() > 0 {
        lemma_yaml_models(s.drop_last());
        assert forall|i: int| 0 <= i < s.len() implies #[trigger] yaml_models(s)[i] == s[i]@ by {
            if i < s.len() - 1 {
                assert(s.drop_last()[i] == s[i]);
            }
        }
    }
}

pub proof fn lemma_pair_models(s: Seq<(YamlNode, YamlNode)>)
    ensures
        pair_models(s).len() == s.len(),
        forall|i: int| 0 <= i < s.len() ==> #[trigger] pair_models(s)[i] == (s[i].0@, s[i].1@),
    decreases s.len(),
{
    if s.len() > 0 {
        lemma_pair_models(s.drop_last());
        assert forall|i: int| 0 <= i < s.len() implies #[trigger] pair_models(s)[i] == (s[i].0@, s[i].1@) by {
            if i < s.len() - 1 {
                assert(s.drop_last()[i] == s[i]);
            }
        }
    }
}

/// A YAML document to be written: only booleans, integers, strings,
/// sequences and string-keyed mappings.
#[derive(Debug)]
pub enum YamlDoc {
    Bool(bool),
    NonNegative(u64),
    Negative(i64),
    String(String),
    Sequence(Vec<YamlDoc>),
    Mapping(Vec<(String, YamlDoc)>),
}

/// The content of a [`YamlDoc`].
pub enum DocModel {
    Bool(bool),
    NonNegative(u64),
    Negative(i64),
    Str(Seq<char>),
    Sequence(Seq<DocModel>),
    Mapping(Seq<(Seq<char>, DocModel)>),
}

pub open spec fn doc_model(d: YamlDoc) -> DocModel
    decreases d,
{
    match d {
        YamlDoc::Bool(b) => DocModel::Bool(b),
        YamlDoc::NonNegative(n) => DocModel::NonNegative(n),
        YamlDoc::Negative(n) => DocModel::Negative(n),
        YamlDoc::String(s) => DocModel::Str(s@),
        YamlDoc::Sequence(items) => DocModel::Sequence(doc_models(items@)),
        YamlDoc::Mapping(es) => DocModel::Mapping(doc_entry_models(es@)),
    }
}

pub open spec fn doc_models(s: Seq<YamlDoc>) -> Seq<DocModel>
    decreases s,
{
    if s.len() == 0 {
        Seq::empty()
    } else {
        doc_models(s.drop_last()).push(doc_model(s.last()))
    }
}

pub open spec fn doc_entry_models(s: Seq<(String, YamlDoc)>) -> Seq<(Seq<char>, DocModel)>
    decreases s,
{
    if s.len() == 0 {
        Seq::empty()
    } else {
        doc_entry_models(s.drop_last()).push((s.last().0@, doc_model(s.last().1)))
    }
}

impl View for YamlDoc {
    type V = DocModel;

    open spec fn view(&self) -> DocModel {
        doc_model(*self)
    }
}

pub proof fn lemma_doc_models(s: Seq<YamlDoc>)
    ensures
        doc_models(s).len() == s.len(),
        forall|i: int| 0 <= i < s.len() ==> #[trigger] doc_models(s)[i] == s[i]@,
    decreases s.len(),
{
    if s.len() > 0 {
        lemma_doc_models(s.drop_last());
        assert forall|i: int| 0 <= i < s.len() implies #[trigger] doc_models(s)[i] == s[i]@ by {
            if i < s.len() - 1 {
                assert(s.drop_last()[i] == s[i]);
            }
        }
    }
}

pub proof fn lemma_doc_entry_models(s: Seq<(String, YamlDoc)>)
    ensures
        doc_entry_models(s).len() == s.len(),
        forall|i: int| 0 <= i < s.len() ==> #[trigger] doc_entry_models(s)[i] == (s[i].0@, s[i].1@),
    decreases s.len(),
{
    if s.len() > 0 {
        lemma_doc_entry_models(s.drop_last());
        assert forall|i: int| 0 <= i < s.len() implies #[trigger] doc_entry_models(s)[i] == (s[i].0@, s[i].1@) by {
            if i < s.len() - 1 {
                assert(s.drop_last()[i] == s[i]);
            }
        }
    }
}

/// A document as a YAML tree with the same content: the tree the reader
/// works on, with every key a string.
pub open spec fn doc_as_yaml(d: DocModel) -> YamlModel
    decreases d,
{
    match d {
        DocModel::Bool(b) => YamlModel::Bool(b),
        DocModel::NonNegative(n) => YamlModel::Number(NumberModel::NonNegative(n)),
        DocModel::Negative(n) => YamlModel::Number(NumberModel::Negative(n)),
        DocModel::Str(s) => YamlModel::Str(s),
        DocModel::Sequence(items) => YamlModel::Sequence(docs_as_yaml(items)),
        DocModel::Mapping(es) => YamlModel::Mapping(doc_entries_as_yaml(es)),
    }
}

pub open spec fn docs_as_yaml(s: Seq<DocModel>) -> Seq<YamlModel>
    decreases s,
{
    if s.len() == 0 {
        Seq::empty()
    } else {
        docs_as_yaml(s.drop_last()).push(doc_as_yaml(s.last()))
    }
}

pub open spec fn doc_entries_as_yaml(s: Seq<(Seq<char>, DocModel)>) -> Seq<(YamlModel, YamlModel)>
    decreases s,
{
    if s.len() == 0 {
        Seq::empty()
    } else {
        doc_entries_as_yaml(s.drop_last()).push((YamlModel::Str(s.last().0), doc_as_yaml(s.last().1)))
    }
}

/// What `serde_yaml::from_str::<serde_yaml::Value>` makes of a text: a tree,
/// or the text of its error. It depends on the text alone.
pub uninterp spec fn yaml_load(text: Seq<char>) -> Result<YamlModel, Seq<char>>;

/// What `serde_yaml::to_string` writes for a document: a text, or the text of
/// its error. It depends on the document alone.
pub uninterp spec fn yaml_dump(doc: DocModel) -> Result<Seq<char>, Seq<char>>;

#[verifier::external_type_specification]
#[verifier::external_body]
pub struct ExSerdeYamlValue(SerdeYamlValue);

#[verifier::external_type_specification]
#[verifier::external_body]
pub struct ExSerdeYamlNumber(serde_yaml::Number);

/// Number conversion for [`load_yaml`]: an integer by `as_u64`, else by
/// `as_i64`; any other number by its `Display` text.
#[verifier::external_body]
fn number_from_serde(n: &serde_yaml::Number) -> YamlNumber {
    match (n.as_u64(), n.as_i64()) {
        (Some(u), _) => YamlNumber::NonNegative(u),
        (None, Some(i)) => YamlNumber::Negative(i),
        _ => YamlNumber::Float(n.to_string()),
    }
}

/// Tree conversion for [`load_yaml`]: one node of `serde_yaml::Value` to one
/// [`YamlNode`], children in order; numbers by [`number_from_serde`], a
/// tagged value as the value under its tag.
#[verifier::external_body]
fn node_from_serde(v: &SerdeYamlValue) -> YamlNode {
    match v {
        SerdeYamlValue::Null => YamlNode::Null,
        SerdeYamlValue::Bool(b) => YamlNode::Bool(*b),
        SerdeYamlValue::Number(n) => YamlNode::Number(number_from_serde(n)),
        SerdeYamlValue::String(s) => YamlNode::String(s.clone()),
        SerdeYamlValue::Sequence(items) => YamlNode::Sequence(items.iter().map(node_from_serde).collect()),
        SerdeYamlValue::Mapping(m) => YamlNode::Mapping(m.iter().map(|(k, x)| (node_from_serde(k), node_from_serde(x))).collect()),
        SerdeYamlValue::Tagged(t) => YamlNode::Tagged(Box::new(node_from_serde(&t.value))),
    }
}

/// Tree conversion for [`dump_yaml`]: one [`YamlDoc`] node to one
/// `serde_yaml::Value`, children in order, keys as strings.
#[verifier::external_body]
fn serde_from_doc(d: &YamlDoc) -> SerdeYamlValue {
    match d {
        YamlDoc::Bool(b) => SerdeYamlValue::Bool(*b),
        YamlDoc::NonNegative(n) => SerdeYamlValue::Number((*n).into()),
        YamlDoc::Negative(n) => SerdeYamlValue::Number((*n).into()),
        YamlDoc::String(s) => SerdeYamlValue::String(s.clone()),
        YamlDoc::Sequence(items) => SerdeYamlValue::Sequence(items.iter().map(serde_from_doc).collect()),
        YamlDoc::Mapping(es) => SerdeYamlValue::Mapping(
            es.iter().map(|(k, x)| (SerdeYamlValue::String(k.clone()), serde_from_doc(x))).collect(),
        ),
    }
}

/// `serde_yaml::from_str::<serde_yaml::Value>`: parses one YAML document.
/// Claimed: the result, converted to a tree, is [`yaml_load`] of the text.
/// Nothing is said of which texts parse or what the tree is.
#[verifier::external_body]
pub(crate) fn load_yaml(text: &str) -> (r: Result<YamlNode, String>)
    ensures
        match r {
            Ok(n) => yaml_load(text@) == Ok::<YamlModel, Seq<char>>(n@),
            Err(m) => yaml_load(text@) == Err::<YamlModel, Seq<char>>(m@),
        },
{
    match serde_yaml::from_str::<serde_yaml::Value>(text) {
        Ok(v) => Ok(node_from_serde(&v)),
        Err(e) => Err(e.to_string()),
    }
}

/// `serde_yaml::to_string` on the converted document. Claimed: the result
/// is [`yaml_dump`] of the document. Nothing is said of what the text is, or
/// of what the parser makes of it.
#[verifier::external_body]
pub(crate) fn dump_yaml(doc: &YamlDoc) -> (r: Result<String, String>)
    ensures
        match r {
            Ok(t) => yaml_dump(doc@) == Ok::<Seq<char>, Seq<char>>(t@),
            Err(m) => yaml_dump(doc@) == Err::<Seq<char>, Seq<char>>(m@),
        },
{
    serde_yaml::to_string(&serde_from_doc(doc)).map_err(|e| e.to_string())
}

} // verus!
