//! What written YAML reads back as: the values, states and documents that a
//! write followed by a read gives back, and the text a second write gives.
use vstd::prelude::*;
use crate::ip::{lemma_parse_ipv4_network_text, parse_ipv4_network_text, IpAddr};
use crate::text::decimal;
use crate::schema::{decode_string, items_schema, property_schema, SchemaModel, StringFormat};
use crate::value::{value_text, keys_distinct, lemma_key_index_none, map_insert, maps_distinct, ValueModel};
use crate::match_spec::{empty_match_view, MatchView};
use crate::schema::{implied_device_type, top_level_schema, RegistryModel};
use crate::state::StateContent;
use crate::yaml::{
    decode_document, decode_items, decode_match, decode_match_pairs, decode_pairs, decode_state,
    decode_state_list, decode_state_pairs, decode_value, encode_entries, encode_items, encode_match,
    encode_state, encode_value, first_reserved, is_reserved_key, key_text, match_with, omit_type,
    optional_entry, render_document, render_text, state_document, state_documents, match_part, type_part,
};
use crate::yaml_node::{
    doc_as_yaml, doc_entries_as_yaml, docs_as_yaml,
    DocModel, YamlModel,
};

verus! {

/// A value that a write and a read give back unchanged at a path with the
/// given schema: strings the schema would not retype, negative `I64`s, IP
/// networks only where the schema declares the IPv4-network format (and
/// only IPv4 ones with a prefix of at most 32), no bare IP addresses, and
/// maps without repeated names.
pub open spec fn value_ready(v: ValueModel, schema: Option<SchemaModel>) -> bool
    decreases v,
{
    match v {
        ValueModel::Str(s) => decode_string(schema, s) == ValueModel::Str(s),
        ValueModel::U64(_) => true,
        ValueModel::Bool(_) => true,
        ValueModel::I64(n) => n < 0,
        ValueModel::Ip(_) => false,
        ValueModel::Network(a, p) => schema == Some(SchemaModel::Scalar(StringFormat::Ipv4Network)) && a is V4 && p <= 32,
        ValueModel::List(items) => items_ready(items, items_schema(schema)),
        ValueModel::Mapping(es) => keys_distinct(es) && entries_ready(es, schema),
    }
}

pub open spec fn items_ready(s: Seq<ValueModel>, schema: Option<SchemaModel>) -> bool
    decreases s,
{
    if s.len() == 0 {
        true
    } else {
        items_ready(s.drop_last(), schema) && value_ready(s.last(), schema)
    }
}

pub open spec fn entries_ready(s: Seq<(Seq<char>, ValueModel)>, schema: Option<SchemaModel>) -> bool
    decreases s,
{
    if s.len() == 0 {
        true
    } else {
        entries_ready(s.drop_last(), schema) && value_ready(s.last().1, property_schema(schema, s.last().0))
    }
}

pub proof fn lemma_encode_entries_keys(s: Seq<(Seq<char>, ValueModel)>)
    ensures
        encode_entries(s).len() == s.len(),
        forall|i: int| 0 <= i < s.len() ==> #[trigger] encode_entries(s)[i] == (s[i].0, encode_value(s[i].1)),
    decreases s.len(),
{
    if s.len() > 0 {
        lemma_encode_entries_keys(s.drop_last());
        assert forall|i: int| 0 <= i < s.len() implies #[trigger] encode_entries(s)[i] == (s[i].0, encode_value(s[i].1)) by {
            if i < s.len() - 1 {
                assert(s.drop_last()[i] == s[i]);
            }
        }
    }
}

/// A ready value, written as a YAML tree, decodes to itself.
pub proof fn lemma_value_roundtrip(v: ValueModel, schema: Option<SchemaModel>)
    requires
        value_ready(v, schema),
    ensures
        decode_value(doc_as_yaml(encode_value(v)), schema) == Ok::<ValueModel, crate::error::ErrorModel>(v),
    decreases v,
{
    match v {
        ValueModel::Network(a, p) => {
            let x = a->V4_0;
            assert(a == IpAddr::V4(x));
            lemma_parse_ipv4_network_text(x, p);
        },
        ValueModel::List(items) => {
            lemma_items_roundtrip(items, items_schema(schema));
        },
        ValueModel::Mapping(es) => {
            lemma_entries_roundtrip(es, schema);
        },
        _ => {},
    }
}

pub proof fn lemma_items_roundtrip(s: Seq<ValueModel>, schema: Option<SchemaModel>)
    requires
        items_ready(s, schema),
    ensures
        decode_items(docs_as_yaml(encode_items(s)), schema) == Ok::<Seq<ValueModel>, crate::error::ErrorModel>(s),
    decreases s,
{
    if s.len() > 0 {
        lemma_items_roundtrip(s.drop_last(), schema);
        lemma_value_roundtrip(s.last(), schema);
        let e = encode_items(s);
        assert(e.drop_last() =~= encode_items(s.drop_last()));
        assert(e.last() == encode_value(s.last()));
        let ys = docs_as_yaml(e);
        assert(ys.drop_last() =~= docs_as_yaml(encode_items(s.drop_last())));
        assert(ys.last() == doc_as_yaml(encode_value(s.last())));
        assert(s.drop_last().push(s.last()) =~= s);
    } else {
        assert(docs_as_yaml(encode_items(s)) =~= Seq::<YamlModel>::empty());
        assert(s =~= Seq::<ValueModel>::empty());
    }
}

pub proof fn lemma_entries_roundtrip(s: Seq<(Seq<char>, ValueModel)>, schema: Option<SchemaModel>)
    requires
        entries_ready(s, schema),
        keys_distinct(s),
    ensures
        decode_pairs(doc_entries_as_yaml(encode_entries(s)), schema) == Ok::<Seq<(Seq<char>, ValueModel)>, crate::error::ErrorModel>(s),
    decreases s,
{
    if s.len() > 0 {
        let init = s.drop_last();
        assert forall|i: int, j: int| 0 <= i < j < init.len() implies #[trigger] init[i].0 != #[trigger] init[j].0 by {
            assert(init[i] == s[i]);
            assert(init[j] == s[j]);
        }
        lemma_entries_roundtrip(init, schema);
        let (k, v) = s.last();
        lemma_value_roundtrip(v, property_schema(schema, k));
        let e = encode_entries(s);
        assert(e.drop_last() =~= encode_entries(init));
        assert(e.last() == (k, encode_value(v)));
        let ps = doc_entries_as_yaml(e);
        assert(ps.drop_last() =~= doc_entries_as_yaml(encode_entries(init)));
        assert(ps.last() == (YamlModel::Str(k), doc_as_yaml(encode_value(v))));
        assert forall|j: int| 0 <= j < init.len() implies #[trigger] init[j].0 != k by {
            assert(init[j] == s[j]);
            assert(s[j].0 != s[s.len() - 1].0);
        }
        lemma_key_index_none(init, k);
        assert(map_insert(init, k, v) =~= s);
    } else {
        assert(doc_entries_as_yaml(encode_entries(s)) =~= Seq::<(YamlModel, YamlModel)>::empty());
        assert(s =~= Seq::<(Seq<char>, ValueModel)>::empty());
    }
}


pub proof fn lemma_doc_entries_as_yaml_concat(a: Seq<(Seq<char>, DocModel)>, b: Seq<(Seq<char>, DocModel)>)
    ensures
        doc_entries_as_yaml(a + b) == doc_entries_as_yaml(a) + doc_entries_as_yaml(b),
    decreases b.len(),
{
    if b.len() == 0 {
        assert(a + b =~= a);
        assert(doc_entries_as_yaml(a) + doc_entries_as_yaml(b) =~= doc_entries_as_yaml(a));
    } else {
        lemma_doc_entries_as_yaml_concat(a, b.drop_last());
        assert((a + b).drop_last() =~= a + b.drop_last());
        assert((a + b).last() == b.last());
        assert(doc_entries_as_yaml(a + b) =~= doc_entries_as_yaml(a) + doc_entries_as_yaml(b));
    }
}

pub proof fn lemma_doc_entries_as_yaml_index(s: Seq<(Seq<char>, DocModel)>)
    ensures
        doc_entries_as_yaml(s).len() == s.len(),
        forall|i: int| 0 <= i < s.len() ==> #[trigger] doc_entries_as_yaml(s)[i] == (YamlModel::Str(s[i].0), doc_as_yaml(s[i].1)),
    decreases s.len(),
{
    if s.len() > 0 {
        lemma_doc_entries_as_yaml_index(s.drop_last());
        assert forall|i: int| 0 <= i < s.len() implies #[trigger] doc_entries_as_yaml(s)[i] == (YamlModel::Str(s[i].0), doc_as_yaml(s[i].1)) by {
            if i < s.len() - 1 {
                assert(s.drop_last()[i] == s[i]);
            }
        }
    }
}

pub proof fn lemma_first_reserved_none(fs: Seq<(Seq<char>, ValueModel)>)
    requires
        first_reserved(fs) is None,
    ensures
        forall|i: int| 0 <= i < fs.len() ==> !is_reserved_key(#[trigger] fs[i].0),
    decreases fs.len(),
{
    if fs.len() > 0 {
        lemma_first_reserved_none(fs.drop_first());
        assert forall|i: int| 0 <= i < fs.len() implies !is_reserved_key(#[trigger] fs[i].0) by {
            if i > 0 {
                assert(fs.drop_first()[i - 1] == fs[i]);
            }
        }
    }
}

/// A state that a write and a read give back: no reserved field name, no
/// repeated name, and every field value ready at its path.
pub open spec fn state_ready(c: StateContent, reg: RegistryModel) -> bool {
    &&& first_reserved(c.fields) is None
    &&& keys_distinct(c.fields)
    &&& forall|i: int| 0 <= i < c.fields.len()
        ==> value_ready(#[trigger] c.fields[i].1, top_level_schema(reg, c.fields[i].0))
}

/// Every state in the list is ready.
pub open spec fn states_ready(cs: Seq<StateContent>, reg: RegistryModel) -> bool {
    forall|i: int| 0 <= i < cs.len() ==> state_ready(#[trigger] cs[i], reg)
}

/// A value that a write and a read give back at a path with the given schema,
/// where its maps repeat no name (which every map of the library ensures):
/// strings the schema would not retype, negative `I64`s, IP networks only
/// where the schema declares the IPv4-network format (IPv4 ones with a prefix
/// of at most 32), and no bare IP addresses.
pub open spec fn value_stable(v: ValueModel, schema: Option<SchemaModel>) -> bool
    decreases v,
{
    match v {
        ValueModel::Str(s) => decode_string(schema, s) == ValueModel::Str(s),
        ValueModel::U64(_) => true,
        ValueModel::Bool(_) => true,
        ValueModel::I64(n) => n < 0,
        ValueModel::Ip(_) => false,
        ValueModel::Network(a, p) => schema == Some(SchemaModel::Scalar(StringFormat::Ipv4Network)) && a is V4 && p <= 32,
        ValueModel::List(items) => forall|i: int| 0 <= i < items.len()
            ==> value_stable(#[trigger] items[i], items_schema(schema)),
        ValueModel::Mapping(es) => forall|i: int| 0 <= i < es.len()
            ==> value_stable(#[trigger] es[i].1, property_schema(schema, es[i].0)),
    }
}

/// A state whose fields a write and a read give back: no reserved field
/// name, and every field value stable at its path.
pub open spec fn state_stable(c: StateContent, reg: RegistryModel) -> bool {
    &&& first_reserved(c.fields) is None
    &&& forall|i: int| 0 <= i < c.fields.len()
        ==> value_stable(#[trigger] c.fields[i].1, top_level_schema(reg, c.fields[i].0))
}

/// Every state in the list is stable.
pub open spec fn states_stable(cs: Seq<StateContent>, reg: RegistryModel) -> bool {
    forall|i: int| 0 <= i < cs.len() ==> state_stable(#[trigger] cs[i], reg)
}

/// No field name repeats, at the top level or in any map below.
pub open spec fn names_distinct_throughout(c: StateContent) -> bool {
    &&& keys_distinct(c.fields)
    &&& forall|i: int| 0 <= i < c.fields.len() ==> maps_distinct(#[trigger] c.fields[i].1)
}

proof fn lemma_stable_value_ready(v: ValueModel, schema: Option<SchemaModel>)
    requires
        value_stable(v, schema),
        maps_distinct(v),
    ensures
        value_ready(v, schema),
    decreases v,
{
    match v {
        ValueModel::List(items) => {
            lemma_stable_items_ready(items, items_schema(schema));
        },
        ValueModel::Mapping(es) => {
            lemma_stable_entries_ready(es, schema);
        },
        _ => {},
    }
}

proof fn lemma_stable_items_ready(s: Seq<ValueModel>, schema: Option<SchemaModel>)
    requires
        forall|i: int| 0 <= i < s.len() ==> value_stable(#[trigger] s[i], schema),
        forall|i: int| 0 <= i < s.len() ==> maps_distinct(#[trigger] s[i]),
    ensures
        items_ready(s, schema),
    decreases s,
{
    if s.len() > 0 {
        let init = s.drop_last();
        assert forall|i: int| 0 <= i < init.len() implies value_stable(#[trigger] init[i], schema) && maps_distinct(init[i]) by {
            assert(init[i] == s[i]);
        }
        lemma_stable_items_ready(init, schema);
        assert(s.last() == s[s.len() - 1]);
        lemma_stable_value_ready(s.last(), schema);
    }
}

proof fn lemma_stable_entries_ready(s: Seq<(Seq<char>, ValueModel)>, schema: Option<SchemaModel>)
    requires
        forall|i: int| 0 <= i < s.len() ==> value_stable(#[trigger] s[i].1, property_schema(schema, s[i].0)),
        forall|i: int| 0 <= i < s.len() ==> maps_distinct(#[trigger] s[i].1),
    ensures
        entries_ready(s, schema),
    decreases s,
{
    if s.len() > 0 {
        let init = s.drop_last();
        assert forall|i: int| 0 <= i < init.len() implies value_stable(#[trigger] init[i].1, property_schema(schema, init[i].0))
            && maps_distinct(init[i].1) by {
            assert(init[i] == s[i]);
        }
        lemma_stable_entries_ready(init, schema);
        assert(s.last() == s[s.len() - 1]);
        lemma_stable_value_ready(s.last().1, property_schema(schema, s.last().0));
    }
}

/// A stable value whose maps repeat no name, written as a YAML tree, decodes
/// under the same schema to itself: strings, integers, booleans, list order
/// and map order all survive, and IP networks where the schema declares them.
pub proof fn lemma_value_reads_back(v: ValueModel, schema: Option<SchemaModel>)
    requires
        value_stable(v, schema),
        maps_distinct(v),
    ensures
        decode_value(doc_as_yaml(encode_value(v)), schema) == Ok::<ValueModel, crate::error::ErrorModel>(v),
{
    lemma_stable_value_ready(v, schema);
    lemma_value_roundtrip(v, schema);
}

/// Stable states whose names never repeat are ready.
pub proof fn lemma_stable_states_ready(cs: Seq<StateContent>, reg: RegistryModel)
    requires
        states_stable(cs, reg),
        forall|i: int| 0 <= i < cs.len() ==> names_distinct_throughout(#[trigger] cs[i]),
    ensures
        states_ready(cs, reg),
{
    assert forall|k: int| 0 <= k < cs.len() implies state_ready(#[trigger] cs[k], reg) by {
        let c = cs[k];
        assert(state_stable(c, reg));
        assert(names_distinct_throughout(c));
        assert forall|i: int| 0 <= i < c.fields.len()
            implies value_ready(#[trigger] c.fields[i].1, top_level_schema(reg, c.fields[i].0)) by {
            lemma_stable_value_ready(c.fields[i].1, top_level_schema(reg, c.fields[i].0));
        }
    }
}

/// A state's content with its selector cleared (what the query format keeps).
pub open spec fn without_match(c: StateContent) -> StateContent {
    StateContent { match_spec: empty_match_view(), ..c }
}

/// A state whose empty device type is replaced by the type a technology
/// sub-object among its fields implies, if one does.
pub open spec fn with_implied_type(c: StateContent, reg: RegistryModel) -> StateContent {
    if c.device_type.len() == 0 {
        match implied_device_type(reg, c.fields) {
            Some(t) => StateContent { device_type: t, ..c },
            None => c,
        }
    } else {
        c
    }
}

/// What reading back one written state gives: the state with an empty
/// device type filled in from its fields where they imply one, and in the
/// query format without its selector.
pub open spec fn read_back_state(c: StateContent, include_match: bool, reg: RegistryModel) -> StateContent {
    if include_match { with_implied_type(c, reg) } else { without_match(with_implied_type(c, reg)) }
}

/// What reading back the written states gives, state by state.
pub open spec fn read_back_contents(cs: Seq<StateContent>, include_match: bool, reg: RegistryModel) -> Seq<StateContent> {
    cs.map_values(|c: StateContent| read_back_state(c, include_match, reg))
}

/// No state leaves its device type empty while its fields imply one (the
/// query format would then state a type on the second write).
pub open spec fn types_settled(cs: Seq<StateContent>, reg: RegistryModel) -> bool {
    forall|i: int| 0 <= i < cs.len() ==> ((#[trigger] cs[i]).device_type.len() == 0 ==> implied_device_type(reg, cs[i].fields) is None)
}

proof fn lemma_match_step(prefix: Seq<(Seq<char>, DocModel)>, acc: MatchView, key: Seq<char>, o: Option<Seq<char>>)
    requires
        decode_match_pairs(doc_entries_as_yaml(prefix)) == Ok::<MatchView, crate::error::ErrorModel>(acc),
        o is Some ==> match_with(acc, key, o->0) is Ok,
    ensures
        decode_match_pairs(doc_entries_as_yaml(prefix + optional_entry(key, o))) == match o {
            Some(s) => match_with(acc, key, s),
            None => Ok::<MatchView, crate::error::ErrorModel>(acc),
        },
{
    lemma_doc_entries_as_yaml_concat(prefix, optional_entry(key, o));
    match o {
        Some(s) => {
            let p = doc_entries_as_yaml(prefix + optional_entry(key, o));
            let one = optional_entry(key, o);
            assert(one.drop_last() =~= Seq::<(Seq<char>, DocModel)>::empty());
            assert(doc_entries_as_yaml(one.drop_last()) =~= Seq::<(YamlModel, YamlModel)>::empty());
            assert(one.len() == 1);
            assert(one.last() == (key, DocModel::Str(s)));
            assert(doc_as_yaml(DocModel::Str(s)) == YamlModel::Str(s));
            assert(doc_entries_as_yaml(one) == doc_entries_as_yaml(one.drop_last()).push((YamlModel::Str(one.last().0), doc_as_yaml(one.last().1))));
            assert(doc_entries_as_yaml(one) =~= seq![(YamlModel::Str(key), YamlModel::Str(s))]);
            assert(p.drop_last() =~= doc_entries_as_yaml(prefix));
            assert(p.last() == (YamlModel::Str(key), YamlModel::Str(s)));
        },
        None => {
            assert(prefix + optional_entry(key, o) =~= prefix);
        },
    }
}

/// A selector written as a `match:` mapping reads back as itself.
pub proof fn lemma_match_roundtrip(m: MatchView)
    ensures
        decode_match(YamlModel::Mapping(doc_entries_as_yaml(encode_match(m)))) == Ok::<MatchView, crate::error::ErrorModel>(m),
{
    reveal_strlit("name");
    reveal_strlit("type");
    reveal_strlit("driver");
    reveal_strlit("pci_path");
    reveal_strlit("mac");
    assert("name"@[0] == 'n' && "type"@[0] == 't' && "driver"@[0] == 'd' && "pci_path"@[0] == 'p' && "mac"@[0] == 'm');
    assert("type"@ != "name"@);
    assert("driver"@ != "name"@ && "driver"@ != "type"@);
    assert("pci_path"@ != "name"@ && "pci_path"@ != "type"@ && "pci_path"@ != "driver"@);
    assert("mac"@ != "name"@ && "mac"@ != "type"@ && "mac"@ != "driver"@ && "mac"@ != "pci_path"@);
    let e0 = Seq::<(Seq<char>, DocModel)>::empty();
    let m0 = empty_match_view();
    assert(doc_entries_as_yaml(e0) =~= Seq::<(YamlModel, YamlModel)>::empty());
    let e1 = e0 + optional_entry("name"@, m.name);
    let m1 = MatchView { name: m.name, ..m0 };
    lemma_match_step(e0, m0, "name"@, m.name);
    assert(decode_match_pairs(doc_entries_as_yaml(e1)) == Ok::<MatchView, crate::error::ErrorModel>(m1));
    let e2 = e1 + optional_entry("type"@, m.device_type);
    let m2 = MatchView { device_type: m.device_type, ..m1 };
    lemma_match_step(e1, m1, "type"@, m.device_type);
    assert(decode_match_pairs(doc_entries_as_yaml(e2)) == Ok::<MatchView, crate::error::ErrorModel>(m2));
    let e3 = e2 + optional_entry("driver"@, m.driver);
    let m3 = MatchView { driver: m.driver, ..m2 };
    lemma_match_step(e2, m2, "driver"@, m.driver);
    assert(decode_match_pairs(doc_entries_as_yaml(e3)) == Ok::<MatchView, crate::error::ErrorModel>(m3));
    let e4 = e3 + optional_entry("pci_path"@, m.pci_path);
    let m4 = MatchView { pci_path: m.pci_path, ..m3 };
    lemma_match_step(e3, m3, "pci_path"@, m.pci_path);
    assert(decode_match_pairs(doc_entries_as_yaml(e4)) == Ok::<MatchView, crate::error::ErrorModel>(m4));
    let e5 = e4 + optional_entry("mac"@, m.mac);
    lemma_match_step(e4, m4, "mac"@, m.mac);
    assert(decode_match_pairs(doc_entries_as_yaml(e5)) == Ok::<MatchView, crate::error::ErrorModel>(m));
    assert(e5 =~= encode_match(m));
}


/// The fields of a ready state, written after any entries and read back.
proof fn lemma_state_fields(p0: Seq<(YamlModel, YamlModel)>, acc: StateContent, fs: Seq<(Seq<char>, ValueModel)>, reg: RegistryModel)
    requires
        decode_state_pairs(p0, reg) == Ok::<StateContent, crate::error::ErrorModel>(acc),
        acc.fields == Seq::<(Seq<char>, ValueModel)>::empty(),
        keys_distinct(fs),
        forall|i: int| 0 <= i < fs.len() ==> !is_reserved_key(#[trigger] fs[i].0),
        forall|i: int| 0 <= i < fs.len() ==> value_ready(#[trigger] fs[i].1, top_level_schema(reg, fs[i].0)),
    ensures
        decode_state_pairs(p0 + doc_entries_as_yaml(encode_entries(fs)), reg)
            == Ok::<StateContent, crate::error::ErrorModel>(StateContent { fields: fs, ..acc }),
    decreases fs.len(),
{
    if fs.len() == 0 {
        assert(doc_entries_as_yaml(encode_entries(fs)) =~= Seq::<(YamlModel, YamlModel)>::empty());
        assert(p0 + doc_entries_as_yaml(encode_entries(fs)) =~= p0);
        assert(fs =~= acc.fields);
    } else {
        let init = fs.drop_last();
        let (k, v) = fs.last();
        assert forall|i: int, j: int| 0 <= i < j < init.len() implies #[trigger] init[i].0 != #[trigger] init[j].0 by {
            assert(init[i] == fs[i]);
            assert(init[j] == fs[j]);
        }
        assert forall|i: int| 0 <= i < init.len() implies !is_reserved_key(#[trigger] init[i].0) by {
            assert(init[i] == fs[i]);
        }
        assert forall|i: int| 0 <= i < init.len() implies value_ready(#[trigger] init[i].1, top_level_schema(reg, init[i].0)) by {
            assert(init[i] == fs[i]);
        }
        lemma_state_fields(p0, acc, init, reg);
        assert(!is_reserved_key(fs[fs.len() - 1].0));
        assert(value_ready(fs[fs.len() - 1].1, top_level_schema(reg, k)));
        lemma_value_roundtrip(v, top_level_schema(reg, k));
        let e = encode_entries(fs);
        assert(e.drop_last() =~= encode_entries(init));
        assert(e.last() == (k, encode_value(v)));
        let d = doc_entries_as_yaml(e);
        assert(d.drop_last() =~= doc_entries_as_yaml(encode_entries(init)));
        assert(d.last() == (YamlModel::Str(k), doc_as_yaml(encode_value(v))));
        let p = p0 + d;
        assert(p.drop_last() =~= p0 + doc_entries_as_yaml(encode_entries(init)));
        assert(p.last() == d.last());
        assert(key_text(YamlModel::Str(k)) == Ok::<Seq<char>, crate::error::ErrorModel>(k));
        assert forall|j: int| 0 <= j < init.len() implies #[trigger] init[j].0 != k by {
            assert(init[j] == fs[j]);
            assert(fs[j].0 != fs[fs.len() - 1].0);
        }
        lemma_key_index_none(init, k);
        assert(map_insert(init, k, v) =~= fs);
    }
}

/// The first entries of a state's mapping, `match:` and `type:`, read back.
proof fn lemma_state_head(c: StateContent, include_match: bool, reg: RegistryModel)
    ensures
        decode_state_pairs(doc_entries_as_yaml(match_part(c, include_match) + type_part(c, include_match, reg)), reg)
            == Ok::<StateContent, crate::error::ErrorModel>(StateContent {
                device_type: if omit_type(c, include_match, reg) { Seq::empty() } else { c.device_type },
                match_spec: if include_match { c.match_spec } else { empty_match_view() },
                fields: Seq::empty(),
            }),
{
    reveal_strlit("match");
    reveal_strlit("type");
    reveal_strlit("kind");
    assert("match"@[0] == 'm' && "type"@[0] == 't' && "kind"@[0] == 'k');
    assert("type"@ != "match"@ && "type"@ != "kind"@);
    let h = match_part(c, include_match);
    let t = type_part(c, include_match, reg);
    lemma_doc_entries_as_yaml_concat(h, t);
    let acc0 = StateContent { device_type: Seq::empty(), match_spec: empty_match_view(), fields: Seq::empty() };
    let dh = doc_entries_as_yaml(h);
    let acc1 = StateContent { match_spec: if include_match { c.match_spec } else { empty_match_view() }, ..acc0 };
    if include_match {
        lemma_match_roundtrip(c.match_spec);
        assert(h.drop_last() =~= Seq::<(Seq<char>, DocModel)>::empty());
        assert(doc_entries_as_yaml(h.drop_last()) =~= Seq::<(YamlModel, YamlModel)>::empty());
        assert(dh == doc_entries_as_yaml(h.drop_last()).push((YamlModel::Str(h.last().0), doc_as_yaml(h.last().1))));
        assert(doc_as_yaml(DocModel::Mapping(encode_match(c.match_spec)))
            == YamlModel::Mapping(doc_entries_as_yaml(encode_match(c.match_spec))));
        assert(dh.drop_last() =~= Seq::<(YamlModel, YamlModel)>::empty());
        assert(decode_state_pairs(dh.drop_last(), reg) == Ok::<StateContent, crate::error::ErrorModel>(acc0));
        assert(dh.last() == (YamlModel::Str("match"@), YamlModel::Mapping(doc_entries_as_yaml(encode_match(c.match_spec)))));
        assert(key_text(dh.last().0) == Ok::<Seq<char>, crate::error::ErrorModel>("match"@));
        assert(decode_state_pairs(dh, reg) == Ok::<StateContent, crate::error::ErrorModel>(acc1));
    } else {
        assert(dh =~= Seq::<(YamlModel, YamlModel)>::empty());
        assert(decode_state_pairs(dh, reg) == Ok::<StateContent, crate::error::ErrorModel>(acc1));
    }
    let dt = doc_entries_as_yaml(t);
    if !omit_type(c, include_match, reg) {
        assert(t.drop_last() =~= Seq::<(Seq<char>, DocModel)>::empty());
        assert(doc_entries_as_yaml(t.drop_last()) =~= Seq::<(YamlModel, YamlModel)>::empty());
        assert(dt == doc_entries_as_yaml(t.drop_last()).push((YamlModel::Str(t.last().0), doc_as_yaml(t.last().1))));
        assert(doc_as_yaml(DocModel::Str(c.device_type)) == YamlModel::Str(c.device_type));
        let p = dh + dt;
        assert(p.drop_last() =~= dh);
        assert(p.last() == (YamlModel::Str("type"@), YamlModel::Str(c.device_type)));
    } else {
        assert(dt =~= Seq::<(YamlModel, YamlModel)>::empty());
        assert(dh + dt =~= dh);
    }
}

/// A ready state, written as a mapping, reads back as itself (without its
/// selector in the query format), and the mapping reads back from text.
pub proof fn lemma_state_roundtrip(c: StateContent, include_match: bool, reg: RegistryModel)
    requires
        state_ready(c, reg),
    ensures
        decode_state(doc_entries_as_yaml(match_part(c, include_match) + type_part(c, include_match, reg) + encode_entries(c.fields)), reg)
            == Ok::<StateContent, crate::error::ErrorModel>(read_back_state(c, include_match, reg)),
{
    reveal_strlit("match");
    reveal_strlit("type");
    reveal_strlit("kind");
    assert("match"@[0] == 'm' && "type"@[0] == 't' && "kind"@[0] == 'k');
    let h = match_part(c, include_match);
    let t = type_part(c, include_match, reg);
    let f = encode_entries(c.fields);
    lemma_state_head(c, include_match, reg);
    lemma_first_reserved_none(c.fields);
    lemma_doc_entries_as_yaml_concat(h + t, f);
    let acc = StateContent {
        device_type: if omit_type(c, include_match, reg) { Seq::empty() } else { c.device_type },
        match_spec: if include_match { c.match_spec } else { empty_match_view() },
        fields: Seq::empty(),
    };
    lemma_state_fields(doc_entries_as_yaml(h + t), acc, c.fields, reg);
    let e = h + t + f;
    if omit_type(c, include_match, reg) && c.device_type.len() != 0 {
        assert(implied_device_type(reg, c.fields) == Some(c.device_type));
    }
    let expected = read_back_state(c, include_match, reg);
    assert(doc_entries_as_yaml(e) == doc_entries_as_yaml(h + t) + doc_entries_as_yaml(f));
    let folded = StateContent { fields: c.fields, ..acc };
    assert(decode_state_pairs(doc_entries_as_yaml(e), reg) == Ok::<StateContent, crate::error::ErrorModel>(folded));
    let got = decode_state(doc_entries_as_yaml(e), reg);
    if omit_type(c, include_match, reg) {
        assert(folded.device_type.len() == 0);
        if c.device_type.len() == 0 {
            assert(folded.device_type =~= c.device_type);
            assert(folded == (if include_match { c } else { without_match(c) }));
            match implied_device_type(reg, c.fields) {
                Some(t) => {
                    assert(got == Ok::<StateContent, crate::error::ErrorModel>(StateContent { device_type: t, ..folded }));
                },
                None => {
                    assert(got == Ok::<StateContent, crate::error::ErrorModel>(folded));
                },
            }
        } else {
            assert(got == Ok::<StateContent, crate::error::ErrorModel>(StateContent { device_type: c.device_type, ..folded }));
        }
    } else {
        assert(folded.device_type == c.device_type);
        assert(got == Ok::<StateContent, crate::error::ErrorModel>(folded));
    }
    assert(got == Ok::<StateContent, crate::error::ErrorModel>(expected));
}


/// The mappings of a list of states.
pub open spec fn encode_states(cs: Seq<StateContent>, include_match: bool, reg: RegistryModel) -> Seq<DocModel> {
    cs.map_values(|c: StateContent| encode_state(c, include_match, reg))
}

proof fn lemma_state_list_roundtrip(cs: Seq<StateContent>, include_match: bool, reg: RegistryModel)
    requires
        states_ready(cs, reg),
    ensures
        state_documents(cs, include_match, reg) == Ok::<Seq<DocModel>, crate::error::ErrorModel>(encode_states(cs, include_match, reg)),
        decode_state_list(docs_as_yaml(encode_states(cs, include_match, reg)), reg)
            == Ok::<Seq<StateContent>, crate::error::ErrorModel>(read_back_contents(cs, include_match, reg)),
    decreases cs.len(),
{
    let es = encode_states(cs, include_match, reg);
    if cs.len() == 0 {
        assert(es =~= Seq::<DocModel>::empty());
        assert(docs_as_yaml(es) =~= Seq::<YamlModel>::empty());
        assert(read_back_contents(cs, include_match, reg) =~= Seq::<StateContent>::empty());
    } else {
        let init = cs.drop_last();
        let c = cs.last();
        assert forall|i: int| 0 <= i < init.len() implies state_ready(#[trigger] init[i], reg) by {
            assert(init[i] == cs[i]);
        }
        lemma_state_list_roundtrip(init, include_match, reg);
        assert(state_ready(cs[cs.len() - 1], reg));
        lemma_state_roundtrip(c, include_match, reg);
        assert(es.drop_last() =~= encode_states(init, include_match, reg));
        assert(es.last() == encode_state(c, include_match, reg));
        let ys = docs_as_yaml(es);
        assert(ys.drop_last() =~= docs_as_yaml(encode_states(init, include_match, reg)));
        assert(ys.last() == doc_as_yaml(encode_state(c, include_match, reg)));
        let entries = match_part(c, include_match) + type_part(c, include_match, reg) + encode_entries(c.fields);
        assert(doc_as_yaml(encode_state(c, include_match, reg)) == YamlModel::Mapping(doc_entries_as_yaml(entries)));
        lemma_first_reserved_none(c.fields);
        assert(state_document(c, cs.len() - 1, include_match, reg) == Ok::<DocModel, crate::error::ErrorModel>(encode_state(c, include_match, reg)));
        assert(encode_states(init, include_match, reg).push(encode_state(c, include_match, reg)) =~= es);
        let rb = read_back_contents(cs, include_match, reg);
        assert(rb =~= read_back_contents(init, include_match, reg).push(read_back_state(c, include_match, reg)));
    }
}

/// Ready states are written as a document (a mapping or a sequence) that a
/// read gives back as the states (see [`read_back_state`]).
pub proof fn lemma_document_roundtrip(cs: Seq<StateContent>, include_match: bool, reg: RegistryModel)
    requires
        states_ready(cs, reg),
    ensures
        render_document(cs, include_match, reg) is Ok,
        ({
            let d = render_document(cs, include_match, reg)->Ok_0;
            &&& decode_document(doc_as_yaml(d), reg) == Ok::<Seq<StateContent>, crate::error::ErrorModel>(read_back_contents(cs, include_match, reg))
            &&& (d is Mapping || d is Sequence)
        }),
{
    if cs.len() == 1 {
        let c = cs[0];
        assert(state_ready(cs[0], reg));
        lemma_first_reserved_none(c.fields);
        lemma_state_roundtrip(c, include_match, reg);
        let d = encode_state(c, include_match, reg);
        assert(render_document(cs, include_match, reg) == Ok::<DocModel, crate::error::ErrorModel>(d));
        let entries = match_part(c, include_match) + type_part(c, include_match, reg) + encode_entries(c.fields);
        assert(doc_as_yaml(d) == YamlModel::Mapping(doc_entries_as_yaml(entries)));
        assert(read_back_contents(cs, include_match, reg) =~= seq![read_back_state(c, include_match, reg)]);
    } else {
        lemma_state_list_roundtrip(cs, include_match, reg);
        let es = encode_states(cs, include_match, reg);
        let d = DocModel::Sequence(es);
        assert(render_document(cs, include_match, reg) == Ok::<DocModel, crate::error::ErrorModel>(d));
        assert(doc_as_yaml(d) == YamlModel::Sequence(docs_as_yaml(es)));
    }
}


/// A state read back is written as the same mapping as the state itself,
/// where the policy format is written or no device type is left to fill in.
proof fn lemma_read_back_state_document(c: StateContent, index: int, include_match: bool, reg: RegistryModel)
    requires
        include_match || c.device_type.len() != 0 || implied_device_type(reg, c.fields) is None,
    ensures
        state_document(read_back_state(c, include_match, reg), index, include_match, reg)
            == state_document(c, index, include_match, reg),
{
    let d = read_back_state(c, include_match, reg);
    assert(d.fields == c.fields);
    assert(match_part(d, include_match) =~= match_part(c, include_match));
    assert(type_part(d, include_match, reg) =~= type_part(c, include_match, reg));
    assert(encode_state(d, include_match, reg) == encode_state(c, include_match, reg));
}

proof fn lemma_documents_of_read_back(cs: Seq<StateContent>, include_match: bool, reg: RegistryModel)
    requires
        include_match || types_settled(cs, reg),
    ensures
        state_documents(read_back_contents(cs, include_match, reg), include_match, reg)
            == state_documents(cs, include_match, reg),
    decreases cs.len(),
{
    let rb = read_back_contents(cs, include_match, reg);
    if cs.len() > 0 {
        let init = cs.drop_last();
        assert(rb.drop_last() =~= read_back_contents(init, include_match, reg));
        assert forall|i: int| 0 <= i < init.len() implies
            ((#[trigger] init[i]).device_type.len() == 0 ==> implied_device_type(reg, init[i].fields) is None)
            || include_match by {
            assert(init[i] == cs[i]);
        }
        lemma_documents_of_read_back(init, include_match, reg);
        let c = cs.last();
        assert(rb.last() == read_back_state(c, include_match, reg));
        assert(include_match || (c.device_type.len() == 0 ==> implied_device_type(reg, c.fields) is None)) by {
            if !include_match {
                assert(cs[cs.len() - 1] == c);
            }
        }
        lemma_read_back_state_document(c, cs.len() - 1, include_match, reg);
    }
}

/// Writing what a read gives back writes the same document again: in the
/// policy format always, and in the query format where no state leaves a
/// device type for its fields to imply.
pub proof fn lemma_rewrite_same_document(cs: Seq<StateContent>, include_match: bool, reg: RegistryModel)
    requires
        include_match || types_settled(cs, reg),
    ensures
        render_document(read_back_contents(cs, include_match, reg), include_match, reg) == render_document(cs, include_match, reg),
{
    let rb = read_back_contents(cs, include_match, reg);
    lemma_documents_of_read_back(cs, include_match, reg);
    if cs.len() == 1 {
        assert(rb[0] == read_back_state(cs[0], include_match, reg));
        assert(include_match || (cs[0].device_type.len() == 0 ==> implied_device_type(reg, cs[0].fields) is None));
        lemma_read_back_state_document(cs[0], 0, include_match, reg);
    }
}

/// Writing what a read gives back writes the same text again, under the same
/// conditions.
pub proof fn lemma_rewrite_same_text(cs: Seq<StateContent>, include_match: bool, reg: RegistryModel)
    requires
        include_match || types_settled(cs, reg),
    ensures
        render_text(read_back_contents(cs, include_match, reg), include_match, reg) == render_text(cs, include_match, reg),
{
    lemma_rewrite_same_document(cs, include_match, reg);
}

/// Strings, IP addresses and IP networks are written as YAML strings holding
/// exactly the text the value prints as (see `Value::to_text`): a string as
/// itself, an address as its canonical text, a network as address, `/` and
/// prefix length.
pub proof fn lemma_scalars_written_as_their_text(v: ValueModel)
    requires
        v is Str || v is Ip || v is Network,
    ensures
        encode_value(v) == DocModel::Str(value_text(v)),
{
}

/// An IPv4 address is written as a text that, followed by `/` and a prefix
/// length of at most 32, reads as that very address with that prefix.
pub proof fn lemma_ipv4_address_written_readably(x: u32, p: u8)
    requires
        p <= 32,
    ensures
        encode_value(ValueModel::Ip(IpAddr::V4(x))) matches DocModel::Str(t)
            && parse_ipv4_network_text(t + seq!['/'] + decimal(p as nat)) == Some((x, p)),
{
    lemma_parse_ipv4_network_text(x, p);
}

} // verus!
