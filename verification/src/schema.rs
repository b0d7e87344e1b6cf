//! The embedded schema registry that directs how YAML scalars decode: a
//! string becomes a semantic value only where a declared format asks for it.
use vstd::prelude::*;
use crate::ip::{parse_ipv4_network, parse_ipv4_network_text, IpAddr};
use crate::text::{same_text, string_of};
use crate::fields::{field_at, field_entries, fields_len};
use crate::value::{lookup, Value, ValueModel};

verus! {

/// How a string scalar at a schema path is decoded.
#[derive(Clone, Copy, Debug, PartialEq, Eq, Structural)]
pub enum StringFormat {
    /// Kept as a string.
    Plain,
    /// An IPv4 address with a prefix length (`10.0.1.50/24`), decoded to an IP
    /// network when the text is a valid one and kept as a string otherwise.
    Ipv4Network,
}

/// A schema node: a scalar with a string format, a list of like items, or an
/// object with named properties.
#[derive(Debug)]
pub enum SchemaNode {
    Scalar(StringFormat),
    Array(Box<SchemaNode>),
    Object(Vec<(String, SchemaNode)>),
}

/// The content of a schema node.
pub enum SchemaModel {
    Scalar(StringFormat),
    Array(Box<SchemaModel>),
    Object(Seq<(Seq<char>, SchemaModel)>),
}

/// The registry: the schema of each known top-level field, and the
/// technology sub-objects that imply a device type.
#[derive(Debug)]
pub struct SchemaRegistry {
    fields: Vec<(String, SchemaNode)>,
    technologies: Vec<(String, String)>,
}

/// The content of a registry.
pub struct RegistryModel {
    pub fields: Seq<(Seq<char>, SchemaModel)>,
    pub technologies: Seq<(Seq<char>, Seq<char>)>,
}

pub open spec fn schema_model(n: SchemaNode) -> SchemaModel
    decreases n,
{
    match n {
        SchemaNode::Scalar(f) => SchemaModel::Scalar(f),
        SchemaNode::Array(b) => SchemaModel::Array(Box::new(schema_model(*b))),
        SchemaNode::Object(props) => SchemaModel::Object(property_models(props@)),
    }
}

pub open spec fn property_models(s: Seq<(String, SchemaNode)>) -> Seq<(Seq<char>, SchemaModel)>
    decreases s,
{
    if s.len() == 0 {
        Seq::empty()
    } else {
        property_models(s.drop_last()).push((s.last().0@, schema_model(s.last().1)))
    }
}

impl View for SchemaNode {
    type V = SchemaModel;

    open spec fn view(&self) -> SchemaModel {
        schema_model(*self)
    }
}

/// The pairs of a technology table, as texts.
pub open spec fn pair_texts(s: Seq<(String, String)>) -> Seq<(Seq<char>, Seq<char>)> {
    s.map_values(|p: (String, String)| (p.0@, p.1@))
}

impl View for SchemaRegistry {
    type V = RegistryModel;

    closed spec fn view(&self) -> RegistryModel {
        RegistryModel { fields: property_models(self.fields@), technologies: pair_texts(self.technologies@) }
    }
}

/// An optional schema node's content.
pub open spec fn opt_schema(n: Option<&SchemaNode>) -> Option<SchemaModel> {
    match n {
        Some(x) => Some(x@),
        None => None,
    }
}

/// The first property named `key`, if any.
pub open spec fn find_property(s: Seq<(Seq<char>, SchemaModel)>, key: Seq<char>) -> Option<SchemaModel>
    decreases s.len(),
{
    if s.len() == 0 {
        None
    } else if s[0].0 == key {
        Some(s[0].1)
    } else {
        find_property(s.drop_first(), key)
    }
}

/// The schema of a top-level field, if the registry declares one.
pub open spec fn top_level_schema(reg: RegistryModel, key: Seq<char>) -> Option<SchemaModel> {
    find_property(reg.fields, key)
}

/// The schema of a list's items.
pub open spec fn items_schema(n: Option<SchemaModel>) -> Option<SchemaModel> {
    match n {
        Some(SchemaModel::Array(b)) => Some(*b),
        _ => None,
    }
}

/// The schema of an object's property.
pub open spec fn property_schema(n: Option<SchemaModel>, key: Seq<char>) -> Option<SchemaModel> {
    match n {
        Some(SchemaModel::Object(props)) => find_property(props, key),
        _ => None,
    }
}

/// How a string decodes at a path: with no schema, or a plain format, it stays
/// a string; an IPv4-network format turns a valid `a.b.c.d/p` into an IP network.
pub open spec fn decode_string(n: Option<SchemaModel>, s: Seq<char>) -> ValueModel {
    match n {
        Some(SchemaModel::Scalar(StringFormat::Ipv4Network)) => match parse_ipv4_network_text(s) {
            Some((a, p)) => ValueModel::Network(IpAddr::V4(a), p),
            None => ValueModel::Str(s),
        },
        _ => ValueModel::Str(s),
    }
}

/// The technology named `key`'s device type, if registered.
pub open spec fn technology_type(t: Seq<(Seq<char>, Seq<char>)>, key: Seq<char>) -> Option<Seq<char>>
    decreases t.len(),
{
    if t.len() == 0 {
        None
    } else if t[0].0 == key {
        Some(t[0].1)
    } else {
        technology_type(t.drop_first(), key)
    }
}

/// The device type that the first technology sub-object (a registered name
/// holding a mapping) among the fields implies, if any.
pub open spec fn implied_type_from(t: Seq<(Seq<char>, Seq<char>)>, fields: Seq<(Seq<char>, ValueModel)>) -> Option<Seq<char>>
    decreases fields.len(),
{
    if fields.len() == 0 {
        None
    } else if fields[0].1 is Mapping && technology_type(t, fields[0].0) is Some {
        technology_type(t, fields[0].0)
    } else {
        implied_type_from(t, fields.drop_first())
    }
}

/// The device type implied by a state's fields under a registry.
pub open spec fn implied_device_type(reg: RegistryModel, fields: Seq<(Seq<char>, ValueModel)>) -> Option<Seq<char>> {
    implied_type_from(reg.technologies, fields)
}

/// The embedded registry's content: `ipv4.addresses[].ip` is an IPv4 network,
/// and an `ethernet` sub-object implies the `ethernet` device type.
pub open spec fn embedded_registry_model() -> RegistryModel {
    RegistryModel {
        fields: seq![(
            "ipv4"@,
            SchemaModel::Object(seq![(
                "addresses"@,
                SchemaModel::Array(Box::new(SchemaModel::Object(seq![(
                    "ip"@,
                    SchemaModel::Scalar(StringFormat::Ipv4Network),
                )]))),
            )]),
        )],
        technologies: seq![("ethernet"@, "ethernet"@)],
    }
}

fn find_in<'a>(props: &'a Vec<(String, SchemaNode)>, key: &str) -> (r: Option<&'a SchemaNode>)
    ensures
        opt_schema(r) == find_property(property_models(props@), key@),
{
    let ghost ms = property_models(props@);
    proof { lemma_property_models(props@); }
    assert(ms.subrange(0, ms.len() as int) =~= ms);
    let mut i: usize = 0;
    while i < props.len()
        invariant
            i <= props.len(),
            ms == property_models(props@),
            ms.len() == props.len(),
            forall|k: int| 0 <= k < props.len() ==> #[trigger] ms[k] == (props@[k].0@, props@[k].1@),
            find_property(ms, key@) == find_property(ms.subrange(i as int, ms.len() as int), key@),
        decreases props.len() - i,
    {
        let ghost rest = ms.subrange(i as int, ms.len() as int);
        assert(rest.drop_first() =~= ms.subrange(i + 1, ms.len() as int));
        assert(rest[0] == ms[i as int]);
        if same_text(props[i].0.as_str(), key) {
            return Some(&props[i].1);
        }
        i = i + 1;
    }
    None
}

pub proof fn lemma_property_models(s: Seq<(String, SchemaNode)>)
    ensures
        property_models(s).len() == s.len(),
        forall|i: int| 0 <= i < s.len() ==> #[trigger] property_models(s)[i] == (s[i].0@, s[i].1@),
    decreases s.len(),
{
    if s.len() > 0 {
        lemma_property_models(s.drop_last());
        assert forall|i: int| 0 <= i < s.len() implies #[trigger] property_models(s)[i] == (s[i].0@, s[i].1@) by {
            if i < s.len() - 1 {
                assert(s.drop_last()[i] == s[i]);
            }
        }
    }
}

/// The schema of a list's items.
pub fn items_of(n: Option<&SchemaNode>) -> (r: Option<&SchemaNode>)
    ensures
        opt_schema(r) == items_schema(opt_schema(n)),
{
    match n {
        Some(SchemaNode::Array(b)) => Some(&**b),
        _ => None,
    }
}

/// The schema of an object's property.
pub fn property_of<'a>(n: Option<&'a SchemaNode>, key: &str) -> (r: Option<&'a SchemaNode>)
    ensures
        opt_schema(r) == property_schema(opt_schema(n), key@),
{
    match n {
        Some(SchemaNode::Object(props)) => find_in(props, key),
        _ => None,
    }
}

/// Decodes a string scalar at a path.
pub fn decode_string_at(n: Option<&SchemaNode>, s: &String) -> (r: Value)
    ensures
        r@ == decode_string(opt_schema(n), s@),
{
    match n {
        Some(SchemaNode::Scalar(StringFormat::Ipv4Network)) => match parse_ipv4_network(s.as_str()) {
            Some((a, p)) => Value::IpNetwork((IpAddr::V4(a), p)),
            None => Value::String(s.clone()),
        },
        _ => Value::String(s.clone()),
    }
}

fn text_pair(a: &str, b: &str) -> (r: (String, String))
    ensures
        r.0@ == a@,
        r.1@ == b@,
{
    (string_of(a), string_of(b))
}

impl SchemaRegistry {
    /// The registry compiled into the library.
    pub fn embedded() -> (r: SchemaRegistry)
        ensures
            r@ == embedded_registry_model(),
    {
        let mut ip_props: Vec<(String, SchemaNode)> = Vec::new();
        ip_props.push((string_of("ip"), SchemaNode::Scalar(StringFormat::Ipv4Network)));
        let mut group_props: Vec<(String, SchemaNode)> = Vec::new();
        group_props.push((string_of("addresses"), SchemaNode::Array(Box::new(SchemaNode::Object(ip_props)))));
        let mut fields: Vec<(String, SchemaNode)> = Vec::new();
        fields.push((string_of("ipv4"), SchemaNode::Object(group_props)));
        let mut technologies: Vec<(String, String)> = Vec::new();
        technologies.push(text_pair("ethernet", "ethernet"));
        let r = SchemaRegistry { fields, technologies };
        proof {
            lemma_property_models(ip_props@);
            lemma_property_models(group_props@);
            lemma_property_models(fields@);
            assert(property_models(ip_props@) =~= seq![("ip"@, SchemaModel::Scalar(StringFormat::Ipv4Network))]);
            assert(schema_model(SchemaNode::Object(ip_props)) == SchemaModel::Object(property_models(ip_props@)));
            assert(group_props@[0].1 == SchemaNode::Array(Box::new(SchemaNode::Object(ip_props))));
            assert(group_props@[0].1@ == SchemaModel::Array(Box::new(SchemaModel::Object(property_models(ip_props@)))));
            assert(property_models(group_props@) =~= seq![("addresses"@, SchemaModel::Array(Box::new(SchemaModel::Object(property_models(ip_props@)))))]);
            assert(property_models(fields@) =~= seq![("ipv4"@, SchemaModel::Object(property_models(group_props@)))]);
            assert(pair_texts(r.technologies@) =~= seq![("ethernet"@, "ethernet"@)]);
        }
        r
    }

    /// The schema of a top-level field, if declared.
    pub fn top_level<'a>(&'a self, key: &str) -> (r: Option<&'a SchemaNode>)
        ensures
            opt_schema(r) == top_level_schema(self@, key@),
    {
        find_in(&self.fields, key)
    }

    fn technology<'a>(&'a self, key: &str) -> (r: Option<&'a String>)
        ensures
            match r {
                Some(t) => technology_type(self@.technologies, key@) == Some(t@),
                None => technology_type(self@.technologies, key@) is None,
            },
    {
        let ghost ts = self@.technologies;
        assert(ts.subrange(0, ts.len() as int) =~= ts);
        let mut i: usize = 0;
        while i < self.technologies.len()
            invariant
                i <= self.technologies.len(),
                ts == pair_texts(self.technologies@),
                ts.len() == self.technologies.len(),
                technology_type(ts, key@) == technology_type(ts.subrange(i as int, ts.len() as int), key@),
            decreases self.technologies.len() - i,
        {
            let ghost rest = ts.subrange(i as int, ts.len() as int);
            assert(rest.drop_first() =~= ts.subrange(i + 1, ts.len() as int));
            assert(rest[0] == ts[i as int]);
            if same_text(self.technologies[i].0.as_str(), key) {
                return Some(&self.technologies[i].1);
            }
            i = i + 1;
        }
        None
    }

    /// The device type implied by the first technology sub-object among the fields.
    pub fn implied_device_type(&self, fields: &indexmap::IndexMap<String, Value>) -> (r: Option<String>)
        ensures
            match r {
                Some(t) => implied_device_type(self@, field_entries(*fields)) == Some(t@),
                None => implied_device_type(self@, field_entries(*fields)) is None,
            },
    {
        let ghost fs = field_entries(*fields);
        let n = fields_len(fields);
        assert(fs.subrange(0, n as int) =~= fs);
        let mut i: usize = 0;
        while i < n
            invariant
                i <= n,
                n == fs.len(),
                fs == field_entries(*fields),
                implied_device_type(self@, fs) == implied_type_from(self@.technologies, fs.subrange(i as int, n as int)),
            decreases n - i,
        {
            let ghost rest = fs.subrange(i as int, n as int);
            assert(rest.drop_first() =~= fs.subrange(i + 1, n as int));
            assert(rest[0] == fs[i as int]);
            if let Some((k, v)) = field_at(fields, i) {
                if let Value::Mapping(_) = v {
                    match self.technology(k.as_str()) {
                        Some(t) => return Some(t.clone()),
                        None => {},
                    }
                }
            }
            i = i + 1;
        }
        assert(fs.subrange(n as int, n as int).len() == 0);
        None
    }
}

} // verus!
