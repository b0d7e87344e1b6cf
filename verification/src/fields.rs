//! The field table of a state: an `indexmap::IndexMap<String, Value>`, seen
//! through the ordered sequence of its entries.
use vstd::prelude::*;
use crate::text::same_text;
use crate::value::{lookup, map_insert, value_eq, Value, ValueModel};

verus! {

#[verifier::external_type_specification]
#[verifier::external_body]
#[verifier::reject_recursive_types(K)]
#[verifier::reject_recursive_types(V)]
#[verifier::reject_recursive_types(S)]
pub struct ExIndexMap<K, V, S>(indexmap::IndexMap<K, V, S>);

/// `IndexMap::clone`, which the derived `Clone` of a state calls. Nothing is
/// stated of the copy.
pub assume_specification<K, V, S> [<indexmap::IndexMap<K, V, S> as std::clone::Clone>::clone] (m: &indexmap::IndexMap<K, V, S>) -> indexmap::IndexMap<K, V, S>
    where
        K: std::clone::Clone,
        S: std::clone::Clone,
        V: std::clone::Clone,
;

/// The entries of a field table, in their order: each name with the content
/// of its value.
pub uninterp spec fn field_entries(m: indexmap::IndexMap<String, Value>) -> Seq<(Seq<char>, ValueModel)>;

/// `IndexMap::new`: an empty table.
#[verifier::external_body]
pub(crate) fn new_fields() -> (m: indexmap::IndexMap<String, Value>)
    ensures
        field_entries(m) == Seq::<(Seq<char>, ValueModel)>::empty(),
{
    indexmap::IndexMap::new()
}

/// `IndexMap::len`: the number of entries.
#[verifier::external_body]
pub(crate) fn fields_len(m: &indexmap::IndexMap<String, Value>) -> (n: usize)
    ensures
        n == field_entries(*m).len(),
{
    m.len()
}

/// `IndexMap::get_index`: the entry at position `i`, if there is one. Its key
/// occurs at no other position: the map holds each key once (`insert` of a
/// key already present replaces the value in place).
#[verifier::external_body]
pub(crate) fn field_at(m: &indexmap::IndexMap<String, Value>, i: usize) -> (r: Option<(&String, &Value)>)
    ensures
        match r {
            Some(e) => {
                &&& i < field_entries(*m).len()
                &&& field_entries(*m)[i as int] == (e.0@, e.1@)
                &&& forall|j: int| 0 <= j < field_entries(*m).len() && j != i ==> #[trigger] field_entries(*m)[j].0 != e.0@
            },
            None => i >= field_entries(*m).len(),
        },
{
    m.get_index(i)
}

/// `IndexMap::insert`: a name already present keeps its place and takes the
/// new value, and the old value is handed back; a new name is appended last.
#[verifier::external_body]
pub(crate) fn insert_field(m: &mut indexmap::IndexMap<String, Value>, key: String, value: Value) -> (r: Option<Value>)
    ensures
        field_entries(*final(m)) == map_insert(field_entries(*old(m)), key@, value@),
        match r {
            Some(v) => lookup(field_entries(*old(m)), key@) == Some(v@),
            None => lookup(field_entries(*old(m)), key@) is None,
        },
{
    m.insert(key, value)
}

/// Whether two field tables hold the same names and values in the same order.
pub(crate) fn fields_eq(a: &indexmap::IndexMap<String, Value>, b: &indexmap::IndexMap<String, Value>) -> (r: bool)
    ensures
        r == (field_entries(*a) == field_entries(*b)),
{
    let ghost fa = field_entries(*a);
    let ghost fb = field_entries(*b);
    let n = fields_len(a);
    if n != fields_len(b) {
        return false;
    }
    let mut i: usize = 0;
    while i < n
        invariant
            i <= n,
            n == fa.len(),
            n == fb.len(),
            fa == field_entries(*a),
            fb == field_entries(*b),
            forall|j: int| 0 <= j < i ==> #[trigger] fa[j] == fb[j],
        decreases n - i,
    {
        match (field_at(a, i), field_at(b, i)) {
            (Some((ka, va)), Some((kb, vb))) => {
                if !same_text(ka.as_str(), kb.as_str()) || !value_eq(va, vb) {
                    assert(fa[i as int] != fb[i as int]);
                    return false;
                }
            },
            _ => {
                assert(false);
            },
        }
        i = i + 1;
    }
    assert(fa =~= fb);
    true
}

} // verus!
