//! The `Value` enum: the type of every configuration value, and `FieldMap`,
//! the insertion-ordered string-keyed map that holds named values.
use vstd::prelude::*;
use crate::ip::{ip_text, network_text, push_ip, push_network, IpAddr};
use crate::text::{decimal, push_char, push_str, same_text, push_decimal, push_signed_decimal, signed_decimal};

verus! {

/// A configuration value.
///
/// The variant set is closed: YAML floats and nulls have no variant here.
/// The IP variants are semantic model types that only a schema-directed
/// decoder produces; the model never guesses them from the text of a string.
#[derive(Debug)]
pub enum Value {
    /// A string.
    String(String),
    /// A non-negative integer.
    U64(u64),
    /// A negative integer.
    I64(i64),
    /// A boolean.
    Bool(bool),
    /// An IPv4 or IPv6 address.
    IpAddr(IpAddr),
    /// An IP network: `(address, prefix length)`. The address keeps its host bits.
    IpNetwork((IpAddr, u8)),
    /// An ordered list of values; element order is significant.
    List(Vec<Value>),
    /// An ordered map; insertion order is preserved.
    Mapping(FieldMap),
}

/// An insertion-ordered map from names to values, each name present at most
/// once: the entries in a `Vec`, in the order their names were first inserted.
#[derive(Debug)]
pub struct FieldMap {
    entries: Vec<(String, Value)>,
}

/// The mathematical content of a [`Value`].
pub enum ValueModel {
    Str(Seq<char>),
    U64(u64),
    I64(i64),
    Bool(bool),
    Ip(IpAddr),
    Network(IpAddr, u8),
    List(Seq<ValueModel>),
    Mapping(Seq<(Seq<char>, ValueModel)>),
}

/// The content of a value.
pub open spec fn value_model(v: Value) -> ValueModel
    decreases v,
{
    match v {
        Value::String(s) => ValueModel::Str(s@),
        Value::U64(n) => ValueModel::U64(n),
        Value::I64(n) => ValueModel::I64(n),
        Value::Bool(b) => ValueModel::Bool(b),
        Value::IpAddr(a) => ValueModel::Ip(a),
        Value::IpNetwork(p) => ValueModel::Network(p.0, p.1),
        Value::List(items) => ValueModel::List(value_models(items@)),
        Value::Mapping(m) => ValueModel::Mapping(field_map_model(m)),
    }
}

/// The contents of a sequence of values.
pub open spec fn value_models(s: Seq<Value>) -> Seq<ValueModel>
    decreases s,
{
    if s.len() == 0 {
        Seq::empty()
    } else {
        value_models(s.drop_last()).push(value_model(s.last()))
    }
}

/// The contents of a sequence of named values.
pub open spec fn entry_models(s: Seq<(String, Value)>) -> Seq<(Seq<char>, ValueModel)>
    decreases s,
{
    if s.len() == 0 {
        Seq::empty()
    } else {
        entry_models(s.drop_last()).push((s.last().0@, value_model(s.last().1)))
    }
}

/// The entries of a field map, in order.
pub closed spec fn field_map_model(m: FieldMap) -> Seq<(Seq<char>, ValueModel)>
    decreases m,
{
    entry_models(m.entries@)
}

impl View for Value {
    type V = ValueModel;

    open spec fn view(&self) -> ValueModel {
        value_model(*self)
    }
}

impl View for FieldMap {
    type V = Seq<(Seq<char>, ValueModel)>;

    open spec fn view(&self) -> Seq<(Seq<char>, ValueModel)> {
        field_map_model(*self)
    }
}

pub proof fn lemma_value_models(s: Seq<Value>)
    ensures
        value_models(s).len() == s.len(),
        forall|i: int| 0 <= i < s.len() ==> #[trigger] value_models(s)[i] == s[i]@,
    decreases s.len(),
{
    if s.len() > 0 {
        lemma_value_models(s.drop_last());
        assert forall|i: int| 0 <= i < s.len() implies #[trigger] value_models(s)[i] == s[i]@ by {
            if i < s.len() - 1 {
                assert(s.drop_last()[i] == s[i]);
            }
        }
    }
}

pub proof fn lemma_entry_models(s: Seq<(String, Value)>)
    ensures
        entry_models(s).len() == s.len(),
        forall|i: int| 0 <= i < s.len() ==> #[trigger] entry_models(s)[i] == (s[i].0@, s[i].1@),
    decreases s.len(),
{
    if s.len() > 0 {
        lemma_entry_models(s.drop_last());
        assert forall|i: int| 0 <= i < s.len() implies #[trigger] entry_models(s)[i] == (s[i].0@, s[i].1@) by {
            if i < s.len() - 1 {
                assert(s.drop_last()[i] == s[i]);
            }
        }
    }
}

/// No name occurs twice.
pub open spec fn keys_distinct(s: Seq<(Seq<char>, ValueModel)>) -> bool {
    forall|i: int, j: int| 0 <= i < j < s.len() ==> #[trigger] s[i].0 != #[trigger] s[j].0
}

/// Whether no map in a value, at any depth, repeats a name.
pub open spec fn maps_distinct(v: ValueModel) -> bool
    decreases v,
{
    match v {
        ValueModel::List(items) => forall|i: int| 0 <= i < items.len() ==> maps_distinct(#[trigger] items[i]),
        ValueModel::Mapping(es) => keys_distinct(es) && forall|i: int| 0 <= i < es.len() ==> maps_distinct(#[trigger] es[i].1),
        _ => true,
    }
}

/// Where `key` first occurs, if anywhere.
pub open spec fn key_index(s: Seq<(Seq<char>, ValueModel)>, key: Seq<char>) -> Option<int>
    decreases s.len(),
{
    if s.len() == 0 {
        None
    } else {
        match key_index(s.drop_last(), key) {
            Some(i) => Some(i),
            None => if s.last().0 == key { Some(s.len() - 1) } else { None },
        }
    }
}

/// The value stored under `key`, if any.
pub open spec fn lookup(s: Seq<(Seq<char>, ValueModel)>, key: Seq<char>) -> Option<ValueModel> {
    match key_index(s, key) {
        Some(i) => Some(s[i].1),
        None => None,
    }
}

/// `IndexMap::insert`: an existing name keeps its place and takes the new value;
/// a new name is appended.
pub open spec fn map_insert(s: Seq<(Seq<char>, ValueModel)>, key: Seq<char>, v: ValueModel) -> Seq<(Seq<char>, ValueModel)> {
    match key_index(s, key) {
        Some(i) => s.update(i, (key, v)),
        None => s.push((key, v)),
    }
}

pub proof fn lemma_key_index(s: Seq<(Seq<char>, ValueModel)>, key: Seq<char>)
    ensures
        match key_index(s, key) {
            Some(i) => 0 <= i < s.len() && s[i].0 == key && forall|j: int| 0 <= j < i ==> #[trigger] s[j].0 != key,
            None => forall|j: int| 0 <= j < s.len() ==> #[trigger] s[j].0 != key,
        },
    decreases s.len(),
{
    if s.len() > 0 {
        lemma_key_index(s.drop_last(), key);
        match key_index(s.drop_last(), key) {
            Some(i) => {
                assert forall|j: int| 0 <= j < i implies #[trigger] s[j].0 != key by {
                    assert(s.drop_last()[j] == s[j]);
                }
                assert(s.drop_last()[i] == s[i]);
            },
            None => {
                assert forall|j: int| 0 <= j < s.len() - 1 implies #[trigger] s[j].0 != key by {
                    assert(s.drop_last()[j] == s[j]);
                }
            },
        }
    }
}

/// A key index characterised by its position.
pub proof fn lemma_key_index_at(s: Seq<(Seq<char>, ValueModel)>, key: Seq<char>, i: int)
    requires
        0 <= i < s.len(),
        s[i].0 == key,
        forall|j: int| 0 <= j < i ==> #[trigger] s[j].0 != key,
    ensures
        key_index(s, key) == Some(i),
{
    lemma_key_index(s, key);
    match key_index(s, key) {
        Some(k) => {
            if k < i {
                assert(s[k].0 != key);
            } else if k > i {
                assert(s[i].0 != key);
            }
        },
        None => {
            assert(s[i].0 != key);
        },
    }
}

pub proof fn lemma_key_index_none(s: Seq<(Seq<char>, ValueModel)>, key: Seq<char>)
    requires
        forall|j: int| 0 <= j < s.len() ==> #[trigger] s[j].0 != key,
    ensures
        key_index(s, key) is None,
{
    lemma_key_index(s, key);
    if let Some(k) = key_index(s, key) {
        assert(s[k].0 != key);
    }
}

impl FieldMap {
    /// No name occurs twice among the entries.
    #[verifier::type_invariant]
    spec fn names_distinct(self) -> bool {
        keys_distinct(entry_models(self.entries@))
    }

    /// An empty map.
    pub fn new() -> (m: FieldMap)
        ensures
            m@ == Seq::<(Seq<char>, ValueModel)>::empty(),
    {
        let m = FieldMap { entries: Vec::new() };
        proof {
            reveal(field_map_model);
            assert(m@ =~= Seq::<(Seq<char>, ValueModel)>::empty());
        }
        m
    }

    /// The number of entries.
    pub fn len(&self) -> (n: usize)
        ensures
            n == self@.len(),
            keys_distinct(self@),
    {
        proof {
            use_type_invariant(self);
            reveal(field_map_model);
            lemma_entry_models(self.entries@);
        }
        self.entries.len()
    }

    /// Whether the map has no entries.
    pub fn is_empty(&self) -> (b: bool)
        ensures
            b == (self@.len() == 0),
    {
        self.len() == 0
    }

    /// The name and value at position `i`, if there is one.
    pub fn get_index(&self, i: usize) -> (r: Option<(&String, &Value)>)
        ensures
            match r {
                Some(e) => i < self@.len() && self@[i as int] == (e.0@, e.1@),
                None => i >= self@.len(),
            },
    {
        proof {
            reveal(field_map_model);
            lemma_entry_models(self.entries@);
        }
        if i < self.entries.len() {
            Some(self.entry_at(i))
        } else {
            None
        }
    }

    /// The name and value at position `i`, which must hold an entry.
    pub(crate) fn entry_at(&self, i: usize) -> (r: (&String, &Value))
        requires
            i < self@.len(),
        ensures
            self@[i as int] == (r.0@, r.1@),
            decreases_to!(*self => *r.1),
    {
        proof {
            reveal(field_map_model);
            lemma_entry_models(self.entries@);
        }
        assert(decreases_to!(*self => self.entries@[i as int].1));
        let e = &self.entries[i];
        (&e.0, &e.1)
    }

    fn index_of(&self, key: &str) -> (r: Option<usize>)
        ensures
            match r {
                Some(i) => key_index(self@, key@) == Some(i as int) && i < self@.len(),
                None => key_index(self@, key@) is None,
            },
    {
        proof {
            reveal(field_map_model);
            lemma_entry_models(self.entries@);
        }
        let mut i: usize = 0;
        while i < self.entries.len()
            invariant
                i <= self.entries.len(),
                self@ == entry_models(self.entries@),
                self@.len() == self.entries.len(),
                forall|j: int| 0 <= j < self@.len() ==> #[trigger] self@[j] == (self.entries@[j].0@, self.entries@[j].1@),
                forall|j: int| 0 <= j < i ==> #[trigger] self@[j].0 != key@,
            decreases self.entries.len() - i,
        {
            if same_text(self.entries[i].0.as_str(), key) {
                proof { lemma_key_index_at(self@, key@, i as int); }
                return Some(i);
            }
            i = i + 1;
        }
        proof { lemma_key_index_none(self@, key@); }
        None
    }

    /// Whether `key` is present.
    pub fn contains_key(&self, key: &str) -> (b: bool)
        ensures
            b == (lookup(self@, key@) is Some),
    {
        self.index_of(key).is_some()
    }

    /// The value stored under `key`, if any.
    pub fn get(&self, key: &str) -> (r: Option<&Value>)
        ensures
            match r {
                Some(v) => lookup(self@, key@) == Some(v@),
                None => lookup(self@, key@) is None,
            },
    {
        match self.index_of(key) {
            Some(i) => {
                let (_, v) = self.entry_at(i);
                Some(v)
            },
            None => None,
        }
    }

    /// Inserts a value under `key`: an existing name keeps its position and
    /// takes the new value (the old one is returned); a new name is appended.
    pub fn insert(&mut self, key: String, value: Value) -> (r: Option<Value>)
        ensures
            final(self)@ == map_insert(old(self)@, key@, value@),
            keys_distinct(old(self)@) ==> keys_distinct(final(self)@),
            match r {
                Some(v) => lookup(old(self)@, key@) == Some(v@),
                None => lookup(old(self)@, key@) is None,
            },
    {
        let ghost k = key@;
        let ghost val = value@;
        proof {
            use_type_invariant(&*self);
            reveal(field_map_model);
            lemma_entry_models(self.entries@);
            lemma_key_index(old(self)@, k);
        }
        let found = self.index_of(key.as_str());
        let mut entries: Vec<(String, Value)> = Vec::new();
        std::mem::swap(&mut entries, &mut self.entries);
        let ghost before = old(self)@;
        proof {
            reveal(field_map_model);
            lemma_entry_models(entries@);
        }
        assert(before == entry_models(entries@));
        let r = match found {
            Some(i) => {
                let old_value = clone_value(&entries[i].1);
                entries.set(i, (key, value));
                proof {
                    lemma_entry_models(entries@);
                    assert(entry_models(entries@) =~= before.update(i as int, (k, val)));
                }
                Some(old_value)
            },
            None => {
                entries.push((key, value));
                proof {
                    lemma_entry_models(entries@);
                    assert(entry_models(entries@) =~= before.push((k, val)));
                }
                None
            },
        };
        assert(entry_models(entries@) == map_insert(before, k, val));
        assert(keys_distinct(entry_models(entries@))) by {
            let after = entry_models(entries@);
            assert forall|x: int, y: int| 0 <= x < y < after.len() implies #[trigger] after[x].0 != #[trigger] after[y].0 by {
                match key_index(before, k) {
                    Some(i) => {
                        if x != i && y != i {
                            assert(after[x] == before[x] && after[y] == before[y]);
                        } else if x == i {
                            assert(after[y] == before[y]);
                            assert(before[x].0 == k);
                        } else {
                            assert(after[x] == before[x]);
                            assert(before[y].0 == k);
                        }
                    },
                    None => {
                        if y < before.len() {
                            assert(after[x] == before[x] && after[y] == before[y]);
                        } else {
                            assert(after[x] == before[x]);
                        }
                    },
                }
            }
        }
        self.entries = entries;
        proof {
            reveal(field_map_model);
        }
        r
    }

    /// The names, in order.
    pub fn keys(&self) -> (r: Vec<&str>)
        ensures
            r@.len() == self@.len(),
            forall|i: int| 0 <= i < r@.len() ==> #[trigger] r@[i]@ == self@[i].0,
    {
        let mut r: Vec<&str> = Vec::new();
        let n = self.len();
        let mut i: usize = 0;
        while i < n
            invariant
                n == self@.len(),
                i <= n,
                r@.len() == i,
                forall|j: int| 0 <= j < i ==> #[trigger] r@[j]@ == self@[j].0,
            decreases n - i,
        {
            let (k, _) = self.entry_at(i);
            r.push(k.as_str());
            i = i + 1;
        }
        r
    }
}


/// A copy of a list of values.
fn clone_values(items: &Vec<Value>) -> (r: Vec<Value>)
    ensures
        value_models(r@) == value_models(items@),
    decreases items,
{
    let mut r: Vec<Value> = Vec::new();
    let mut i: usize = 0;
    while i < items.len()
        invariant
            i <= items.len(),
            r@.len() == i,
            forall|j: int| 0 <= j < i ==> #[trigger] r@[j]@ == items@[j]@,
        decreases items.len() - i,
    {
        assert(decreases_to!(items => items@[i as int]));
        r.push(clone_value(&items[i]));
        i = i + 1;
    }
    proof {
        lemma_value_models(r@);
        lemma_value_models(items@);
        assert(value_models(r@) =~= value_models(items@));
    }
    r
}

/// A copy of a value.
fn clone_value(v: &Value) -> (r: Value)
    ensures
        r@ == v@,
    decreases v,
{
    match v {
        Value::String(s) => Value::String(s.clone()),
        Value::U64(n) => Value::U64(*n),
        Value::I64(n) => Value::I64(*n),
        Value::Bool(b) => Value::Bool(*b),
        Value::IpAddr(a) => Value::IpAddr(*a),
        Value::IpNetwork(n) => Value::IpNetwork((n.0, n.1)),
        Value::List(items) => Value::List(clone_values(items)),
        Value::Mapping(m) => Value::Mapping(clone_map(m)),
    }
}

/// A copy of a field map.
fn clone_map(m: &FieldMap) -> (r: FieldMap)
    ensures
        r@ == m@,
    decreases m,
{
    let mut entries: Vec<(String, Value)> = Vec::new();
    let mut i: usize = 0;
    proof {
        reveal(field_map_model);
        lemma_entry_models(m.entries@);
    }
    while i < m.entries.len()
        invariant
            i <= m.entries.len(),
            entries@.len() == i,
            forall|j: int| 0 <= j < i ==> (#[trigger] entries@[j]).0@ == m.entries@[j].0@ && entries@[j].1@ == m.entries@[j].1@,
        decreases m.entries.len() - i,
    {
        assert(decreases_to!(m => m.entries@[i as int].1));
        let e = &m.entries[i];
        entries.push((e.0.clone(), clone_value(&e.1)));
        i = i + 1;
    }
    proof {
        use_type_invariant(m);
        lemma_entry_models(entries@);
        assert(entry_models(entries@) =~= entry_models(m.entries@));
    }
    let r = FieldMap { entries };
    proof {
        reveal(field_map_model);
        assert(r@ =~= m@);
    }
    r
}

impl Clone for Value {
    fn clone(&self) -> (r: Value)
        ensures
            r@ == self@,
    {
        clone_value(self)
    }
}

impl Clone for FieldMap {
    fn clone(&self) -> (r: FieldMap)
        ensures
            r@ == self@,
    {
        clone_map(self)
    }
}


/// Whether two values are equal: same variant and same content, lists and
/// maps compared position by position (so map order matters).
pub fn value_eq(a: &Value, b: &Value) -> (r: bool)
    ensures
        r == (a@ == b@),
    decreases a,
{
    match (a, b) {
        (Value::String(x), Value::String(y)) => x.eq(y),
        (Value::U64(x), Value::U64(y)) => *x == *y,
        (Value::I64(x), Value::I64(y)) => *x == *y,
        (Value::Bool(x), Value::Bool(y)) => *x == *y,
        (Value::IpAddr(x), Value::IpAddr(y)) => *x == *y,
        (Value::IpNetwork(x), Value::IpNetwork(y)) => x.0 == y.0 && x.1 == y.1,
        (Value::List(xs), Value::List(ys)) => {
            proof {
                lemma_value_models(xs@);
                lemma_value_models(ys@);
            }
            if xs.len() != ys.len() {
                return false;
            }
            let mut i: usize = 0;
            while i < xs.len()
                invariant
                    *a == Value::List(*xs),
                    *b == Value::List(*ys),
                    i <= xs.len(),
                    xs.len() == ys.len(),
                    value_models(xs@).len() == xs.len(),
                    value_models(ys@).len() == ys.len(),
                    forall|k: int| 0 <= k < xs.len() ==> #[trigger] value_models(xs@)[k] == xs@[k]@,
                    forall|k: int| 0 <= k < ys.len() ==> #[trigger] value_models(ys@)[k] == ys@[k]@,
                    forall|k: int| 0 <= k < i ==> #[trigger] xs@[k]@ == ys@[k]@,
                decreases xs.len() - i,
            {
                assert(decreases_to!(*a => (*a)->List_0));
                assert(decreases_to!(xs => xs@[i as int]));
                if !value_eq(&xs[i], &ys[i]) {
                    assert(value_models(xs@)[i as int] != value_models(ys@)[i as int]);
                    assert(a@ == ValueModel::List(value_models(xs@)));
                    assert(b@ == ValueModel::List(value_models(ys@)));
                    return false;
                }
                i = i + 1;
            }
            assert(value_models(xs@) =~= value_models(ys@));
            true
        },
        (Value::Mapping(x), Value::Mapping(y)) => map_eq(x, y),
        _ => false,
    }
}

/// Whether two field maps hold equal entries in the same order.
pub fn map_eq(a: &FieldMap, b: &FieldMap) -> (r: bool)
    ensures
        r == (a@ == b@),
    decreases a,
{
    proof {
        reveal(field_map_model);
        lemma_entry_models(a.entries@);
        lemma_entry_models(b.entries@);
    }
    if a.entries.len() != b.entries.len() {
        return false;
    }
    let mut i: usize = 0;
    while i < a.entries.len()
        invariant
            i <= a.entries.len(),
            a.entries.len() == b.entries.len(),
            a@ == entry_models(a.entries@),
            b@ == entry_models(b.entries@),
            a@.len() == a.entries.len(),
            b@.len() == b.entries.len(),
            forall|k: int| 0 <= k < a.entries.len() ==> #[trigger] a@[k] == (a.entries@[k].0@, a.entries@[k].1@),
            forall|k: int| 0 <= k < b.entries.len() ==> #[trigger] b@[k] == (b.entries@[k].0@, b.entries@[k].1@),
            forall|k: int| 0 <= k < i ==> #[trigger] a@[k] == b@[k],
        decreases a.entries.len() - i,
    {
        assert(decreases_to!(a => a.entries@[i as int].1));
        let ea = &a.entries[i];
        let eb = &b.entries[i];
        if !ea.0.eq(&eb.0) || !value_eq(&ea.1, &eb.1) {
            assert(a@[i as int] != b@[i as int]);
            return false;
        }
        i = i + 1;
    }
    assert(a@ =~= b@);
    true
}

impl PartialEq for Value {
    fn eq(&self, other: &Value) -> (r: bool) {
        value_eq(self, other)
    }
}

impl vstd::std_specs::cmp::PartialEqSpecImpl for Value {
    open spec fn obeys_eq_spec() -> bool {
        true
    }

    open spec fn eq_spec(&self, other: &Value) -> bool {
        self@ == other@
    }
}

impl Eq for Value {}

impl PartialEq for FieldMap {
    fn eq(&self, other: &FieldMap) -> (r: bool) {
        map_eq(self, other)
    }
}

impl vstd::std_specs::cmp::PartialEqSpecImpl for FieldMap {
    open spec fn obeys_eq_spec() -> bool {
        true
    }

    open spec fn eq_spec(&self, other: &FieldMap) -> bool {
        self@ == other@
    }
}

impl Eq for FieldMap {}

/// The text of a boolean.
pub open spec fn bool_text(b: bool) -> Seq<char> {
    if b { seq!['t', 'r', 'u', 'e'] } else { seq!['f', 'a', 'l', 's', 'e'] }
}

/// The canonical text of a value, for logging: scalars bare (strings without
/// quotes, networks with their prefix), lists as `[a, b]`, maps as `{k: v}`.
pub open spec fn value_text(v: ValueModel) -> Seq<char>
    decreases v,
{
    match v {
        ValueModel::Str(s) => s,
        ValueModel::U64(n) => decimal(n as nat),
        ValueModel::I64(n) => signed_decimal(n as int),
        ValueModel::Bool(b) => bool_text(b),
        ValueModel::Ip(a) => ip_text(a),
        ValueModel::Network(a, p) => network_text(a, p),
        ValueModel::List(items) => seq!['['] + items_text(items) + seq![']'],
        ValueModel::Mapping(es) => seq!['{'] + entries_text(es) + seq!['}'],
    }
}

/// The texts of values, separated by `, `.
pub open spec fn items_text(s: Seq<ValueModel>) -> Seq<char>
    decreases s,
{
    if s.len() == 0 {
        Seq::empty()
    } else if s.len() == 1 {
        value_text(s[0])
    } else {
        items_text(s.drop_last()) + seq![',', ' '] + value_text(s.last())
    }
}

/// The texts of named values as `k: v`, separated by `, `.
pub open spec fn entries_text(s: Seq<(Seq<char>, ValueModel)>) -> Seq<char>
    decreases s,
{
    if s.len() == 0 {
        Seq::empty()
    } else if s.len() == 1 {
        s[0].0 + seq![':', ' '] + value_text(s[0].1)
    } else {
        entries_text(s.drop_last()) + seq![',', ' '] + (s.last().0 + seq![':', ' '] + value_text(s.last().1))
    }
}

fn push_bool(out: &mut String, b: bool)
    ensures
        final(out)@ == old(out)@ + bool_text(b),
{
    let ghost start = out@;
    if b {
        push_char(out, 't');
        push_char(out, 'r');
        push_char(out, 'u');
        push_char(out, 'e');
    } else {
        push_char(out, 'f');
        push_char(out, 'a');
        push_char(out, 'l');
        push_char(out, 's');
        push_char(out, 'e');
    }
    assert(out@ =~= start + bool_text(b));
}

/// Appends the canonical text of a value.
pub fn push_value_text(out: &mut String, v: &Value)
    ensures
        final(out)@ == old(out)@ + value_text(v@),
    decreases v,
{
    let ghost start = out@;
    match v {
        Value::String(s) => push_str(out, s.as_str()),
        Value::U64(n) => push_decimal(out, *n),
        Value::I64(n) => push_signed_decimal(out, *n),
        Value::Bool(b) => push_bool(out, *b),
        Value::IpAddr(a) => push_ip(out, a),
        Value::IpNetwork(n) => push_network(out, &n.0, n.1),
        Value::List(items) => {
            proof { lemma_value_models(items@); }
            let ghost ms = value_models(items@);
            push_char(out, '[');
            let mut i: usize = 0;
            while i < items.len()
                invariant
                    *v == Value::List(*items),
                    i <= items.len(),
                    ms == value_models(items@),
                    ms.len() == items.len(),
                    forall|k: int| 0 <= k < items.len() ==> #[trigger] ms[k] == items@[k]@,
                    out@ == start.push('[') + items_text(ms.take(i as int)),
                decreases items.len() - i,
            {
                let ghost before = out@;
                if i > 0 {
                    push_char(out, ',');
                    push_char(out, ' ');
                }
                assert(decreases_to!(*v => (*v)->List_0));
                assert(decreases_to!(items => items@[i as int]));
                push_value_text(out, &items[i]);
                proof {
                    let t = ms.take(i + 1);
                    assert(t.drop_last() =~= ms.take(i as int));
                    assert(t.last() == ms[i as int]);
                    if i == 0 {
                        assert(t.len() == 1);
                        assert(out@ =~= start.push('[') + items_text(t));
                    } else {
                        assert(out@ =~= start.push('[') + items_text(t));
                    }
                }
                i = i + 1;
            }
            push_char(out, ']');
            assert(ms.take(items.len() as int) =~= ms);
            assert(out@ =~= start + value_text(v@));
        },
        Value::Mapping(m) => {
            proof {
                reveal(field_map_model);
                lemma_entry_models(m.entries@);
            }
            push_char(out, '{');
            let ghost es = m@;
            let n = m.entries.len();
            let mut i: usize = 0;
            while i < n
                invariant
                    *v == Value::Mapping(*m),
                    i <= n,
                    n == m.entries.len(),
                    es == m@,
                    es.len() == n,
                    forall|k: int| 0 <= k < n ==> #[trigger] es[k] == (m.entries@[k].0@, m.entries@[k].1@),
                    out@ == start.push('{') + entries_text(es.take(i as int)),
                decreases n - i,
            {
                if i > 0 {
                    push_char(out, ',');
                    push_char(out, ' ');
                }
                let e = &m.entries[i];
                push_str(out, e.0.as_str());
                push_char(out, ':');
                push_char(out, ' ');
                assert(decreases_to!(*v => (*v)->Mapping_0));
                assert(decreases_to!(m => m.entries@[i as int].1));
                push_value_text(out, &e.1);
                proof {
                    let t = es.take(i + 1);
                    assert(t.drop_last() =~= es.take(i as int));
                    assert(t.last() == es[i as int]);
                    assert(out@ =~= start.push('{') + entries_text(t));
                }
                i = i + 1;
            }
            push_char(out, '}');
            assert(es.take(n as int) =~= es);
            assert(out@ =~= start + value_text(v@));
        },
    }
}

impl Value {
    /// The canonical text of the value (what the value prints as).
    pub fn to_text(&self) -> (r: String)
        ensures
            r@ == value_text(self@),
    {
        let mut s = String::new();
        push_value_text(&mut s, self);
        assert(s@ =~= value_text(self@));
        s
    }
}

} // verus!
