//! What every read of a YAML tree guarantees: a list yields one state per
//! element in order, no value is retyped from the text of a string unless
//! the schema at its path asks for it, and integers are read by their sign.
use vstd::prelude::*;
use crate::error::ErrorModel;
use crate::schema::{decode_string, items_schema, property_schema, top_level_schema, RegistryModel, SchemaModel};
use crate::state::StateContent;
use crate::value::{key_index, lemma_key_index, lemma_key_index_at, lemma_key_index_none, lookup, map_insert, ValueModel};
use crate::yaml::{
    decode_items, decode_pairs, decode_state, decode_state_list, decode_state_pairs, decode_value, is_reserved_key, key_text,
};
use crate::yaml_node::YamlModel;

verus! {

/// A top-level list is read as one state per element, in list order: every
/// element is a device mapping, and element `i` is read as state `i`.
pub proof fn lemma_one_state_per_element(items: Seq<YamlModel>, reg: RegistryModel)
    requires
        decode_state_list(items, reg) is Ok,
    ensures
        ({
            let cs = decode_state_list(items, reg)->Ok_0;
            &&& cs.len() == items.len()
            &&& forall|i: int| 0 <= i < items.len() ==> (#[trigger] items[i] matches YamlModel::Mapping(pairs)
                && decode_state(pairs, reg) == Ok::<StateContent, ErrorModel>(cs[i]))
        }),
    decreases items.len(),
{
    if items.len() > 0 {
        let init = items.drop_last();
        lemma_one_state_per_element(init, reg);
        let cs = decode_state_list(items, reg)->Ok_0;
        let cs0 = decode_state_list(init, reg)->Ok_0;
        assert forall|i: int| 0 <= i < items.len() implies (#[trigger] items[i] matches YamlModel::Mapping(pairs)
            && decode_state(pairs, reg) == Ok::<StateContent, ErrorModel>(cs[i])) by {
            if i < items.len() - 1 {
                assert(init[i] == items[i]);
                assert(cs[i] == cs0[i]);
            }
        }
    }
}

/// Whether a value holds no IP address or IP network, at any depth.
pub open spec fn free_of_ip(v: ValueModel) -> bool
    decreases v,
{
    match v {
        ValueModel::Ip(_) => false,
        ValueModel::Network(_, _) => false,
        ValueModel::List(items) => forall|i: int| 0 <= i < items.len() ==> free_of_ip(#[trigger] items[i]),
        ValueModel::Mapping(es) => forall|i: int| 0 <= i < es.len() ==> free_of_ip(#[trigger] es[i].1),
        _ => true,
    }
}

/// Where no schema governs a path, reading never produces an IP address or
/// network: strings stay strings, however address-like their text, and so
/// does everything nested below.
pub proof fn lemma_unknown_path_never_retypes(y: YamlModel)
    ensures
        decode_value(y, None) matches Ok(v) ==> free_of_ip(v),
        y matches YamlModel::Str(s) ==> decode_value(y, None) == Ok::<ValueModel, ErrorModel>(ValueModel::Str(s)),
    decreases y,
{
    match y {
        YamlModel::Sequence(items) => {
            lemma_unknown_items(items);
        },
        YamlModel::Mapping(pairs) => {
            lemma_unknown_pairs(pairs);
        },
        YamlModel::Str(s) => {
            assert(decode_string(None, s) == ValueModel::Str(s));
        },
        _ => {},
    }
}

proof fn lemma_unknown_items(items: Seq<YamlModel>)
    ensures
        decode_items(items, items_schema(None)) matches Ok(vs) ==> forall|i: int| 0 <= i < vs.len() ==> free_of_ip(#[trigger] vs[i]),
    decreases items,
{
    if items.len() > 0 {
        lemma_unknown_items(items.drop_last());
        lemma_unknown_path_never_retypes(items.last());
    }
}

proof fn lemma_unknown_pairs(pairs: Seq<(YamlModel, YamlModel)>)
    ensures
        decode_pairs(pairs, None) matches Ok(es) ==> forall|i: int| 0 <= i < es.len() ==> free_of_ip(#[trigger] es[i].1),
    decreases pairs,
{
    if pairs.len() > 0 {
        lemma_unknown_pairs(pairs.drop_last());
        lemma_unknown_path_never_retypes(pairs.last().1);
        if let Ok(es0) = decode_pairs(pairs.drop_last(), None) {
            if let Ok(key) = crate::yaml::key_text(pairs.last().0) {
                assert(property_schema(None, key) == None::<SchemaModel>);
                if let Ok(v) = decode_value(pairs.last().1, None) {
                    lemma_key_index(es0, key);
                    let es = map_insert(es0, key, v);
                    assert forall|i: int| 0 <= i < es.len() implies free_of_ip(#[trigger] es[i].1) by {
                        if i < es0.len() && es[i] != es0[i] {
                            assert(es[i].1 == v);
                        }
                    }
                }
            }
        }
    }
}

} // verus!

verus! {

/// Whether every `I64` in a value, at any depth, is below zero: the
/// non-negative integers are all `U64`s.
pub open spec fn integers_by_sign(v: ValueModel) -> bool
    decreases v,
{
    match v {
        ValueModel::I64(n) => n < 0,
        ValueModel::List(items) => forall|i: int| 0 <= i < items.len() ==> integers_by_sign(#[trigger] items[i]),
        ValueModel::Mapping(es) => forall|i: int| 0 <= i < es.len() ==> integers_by_sign(#[trigger] es[i].1),
        _ => true,
    }
}

/// Reading decodes an integer by its sign, whatever the schema: a
/// non-negative one is a `U64` and a negative one an `I64`, at any depth.
pub proof fn lemma_integers_read_by_sign(y: YamlModel, schema: Option<SchemaModel>)
    ensures
        decode_value(y, schema) matches Ok(v) ==> integers_by_sign(v),
    decreases y,
{
    match y {
        YamlModel::Sequence(items) => {
            lemma_items_by_sign(items, items_schema(schema));
        },
        YamlModel::Mapping(pairs) => {
            lemma_pairs_by_sign(pairs, schema);
        },
        _ => {},
    }
}

proof fn lemma_items_by_sign(items: Seq<YamlModel>, schema: Option<SchemaModel>)
    ensures
        decode_items(items, schema) matches Ok(vs) ==> forall|i: int| 0 <= i < vs.len() ==> integers_by_sign(#[trigger] vs[i]),
    decreases items,
{
    if items.len() > 0 {
        lemma_items_by_sign(items.drop_last(), schema);
        lemma_integers_read_by_sign(items.last(), schema);
    }
}

proof fn lemma_pairs_by_sign(pairs: Seq<(YamlModel, YamlModel)>, schema: Option<SchemaModel>)
    ensures
        decode_pairs(pairs, schema) matches Ok(es) ==> forall|i: int| 0 <= i < es.len() ==> integers_by_sign(#[trigger] es[i].1),
    decreases pairs,
{
    if pairs.len() > 0 {
        lemma_pairs_by_sign(pairs.drop_last(), schema);
        if let Ok(es0) = decode_pairs(pairs.drop_last(), schema) {
            if let Ok(key) = crate::yaml::key_text(pairs.last().0) {
                lemma_integers_read_by_sign(pairs.last().1, property_schema(schema, key));
                if let Ok(v) = decode_value(pairs.last().1, property_schema(schema, key)) {
                    lemma_key_index(es0, key);
                    let es = map_insert(es0, key, v);
                    assert forall|i: int| 0 <= i < es.len() implies integers_by_sign(#[trigger] es[i].1) by {
                        if i < es0.len() && es[i] != es0[i] {
                            assert(es[i].1 == v);
                        }
                    }
                }
            }
        }
    }
}

} // verus!

verus! {

/// Looking a name up after an insert: the inserted value under the inserted
/// name, and what was there before under any other name.
proof fn lemma_lookup_after_insert(s: Seq<(Seq<char>, ValueModel)>, k2: Seq<char>, v: ValueModel, k: Seq<char>)
    ensures
        lookup(map_insert(s, k2, v), k) == if k == k2 { Some(v) } else { lookup(s, k) },
{
    lemma_key_index(s, k2);
    lemma_key_index(s, k);
    let t = map_insert(s, k2, v);
    match key_index(s, k2) {
        Some(i) => {
            assert(t == s.update(i, (k2, v)));
            if k == k2 {
                lemma_key_index_at(t, k, i);
            } else {
                match key_index(s, k) {
                    Some(m) => {
                        assert forall|j: int| 0 <= j < m implies #[trigger] t[j].0 != k by {
                            if j != i {
                                assert(t[j] == s[j]);
                            }
                        }
                        lemma_key_index_at(t, k, m);
                    },
                    None => {
                        assert forall|j: int| 0 <= j < t.len() implies #[trigger] t[j].0 != k by {
                            if j != i {
                                assert(t[j] == s[j]);
                            }
                        }
                        lemma_key_index_none(t, k);
                    },
                }
            }
        },
        None => {
            assert(t == s.push((k2, v)));
            if k == k2 {
                assert forall|j: int| 0 <= j < s.len() implies #[trigger] t[j].0 != k by {
                    assert(t[j] == s[j]);
                }
                lemma_key_index_at(t, k, s.len() as int);
            } else {
                match key_index(s, k) {
                    Some(m) => {
                        assert forall|j: int| 0 <= j < m implies #[trigger] t[j].0 != k by {
                            assert(t[j] == s[j]);
                        }
                        lemma_key_index_at(t, k, m);
                    },
                    None => {
                        assert forall|j: int| 0 <= j < t.len() implies #[trigger] t[j].0 != k by {
                            if j < s.len() {
                                assert(t[j] == s[j]);
                            }
                        }
                        lemma_key_index_none(t, k);
                    },
                }
            }
        },
    }
}

proof fn lemma_field_kept(pairs: Seq<(YamlModel, YamlModel)>, reg: RegistryModel, i: int, k: Seq<char>)
    requires
        decode_state_pairs(pairs, reg) is Ok,
        0 <= i < pairs.len(),
        key_text(pairs[i].0) == Ok::<Seq<char>, ErrorModel>(k),
        !is_reserved_key(k),
        forall|j: int| i < j < pairs.len() ==> key_text(#[trigger] pairs[j].0) != Ok::<Seq<char>, ErrorModel>(k),
    ensures
        decode_value(pairs[i].1, top_level_schema(reg, k)) matches Ok(v)
            && lookup(decode_state_pairs(pairs, reg)->Ok_0.fields, k) == Some(v),
    decreases pairs.len(),
{
    let init = pairs.drop_last();
    let n = pairs.len() - 1;
    assert(pairs.last() == pairs[n]);
    assert(decode_state_pairs(init, reg) is Ok);
    let acc = decode_state_pairs(init, reg)->Ok_0;
    if i == n {
        if let Ok(v) = decode_value(pairs[i].1, top_level_schema(reg, k)) {
            lemma_lookup_after_insert(acc.fields, k, v, k);
        }
    } else {
        assert forall|j: int| i < j < init.len() implies key_text(#[trigger] init[j].0) != Ok::<Seq<char>, ErrorModel>(k) by {
            assert(init[j] == pairs[j]);
        }
        assert(init[i] == pairs[i]);
        lemma_field_kept(init, reg, i, k);
        let key2 = key_text(pairs[n].0)->Ok_0;
        assert(key_text(pairs[n].0) != Ok::<Seq<char>, ErrorModel>(k));
        if !(key2 == "match"@ || key2 == "kind"@ || key2 == "type"@) {
            if let Ok(v2) = decode_value(pairs[n].1, top_level_schema(reg, key2)) {
                lemma_lookup_after_insert(acc.fields, key2, v2, k);
            }
        }
    }
}

/// The fields of a device mapping do not depend on where `match:`, `type:`
/// or `kind:` stand among its keys: every other name of a mapping that reads
/// as a state is a field of that state, holding the value of its last
/// occurrence decoded under the name's schema.
pub proof fn lemma_every_field_read(pairs: Seq<(YamlModel, YamlModel)>, reg: RegistryModel, i: int, k: Seq<char>)
    requires
        decode_state(pairs, reg) is Ok,
        0 <= i < pairs.len(),
        key_text(pairs[i].0) == Ok::<Seq<char>, ErrorModel>(k),
        !(k == "match"@ || k == "type"@ || k == "kind"@),
        forall|j: int| i < j < pairs.len() ==> key_text(#[trigger] pairs[j].0) != Ok::<Seq<char>, ErrorModel>(k),
    ensures
        decode_value(pairs[i].1, top_level_schema(reg, k)) matches Ok(v)
            && lookup(decode_state(pairs, reg)->Ok_0.fields, k) == Some(v),
{
    lemma_field_kept(pairs, reg, i, k);
}

} // verus!
