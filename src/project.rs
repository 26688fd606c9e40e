use vstd::prelude::*;
use indexmap::IndexMap;
use crate::value::Value;
use crate::yaml::to_yaml;
use serde_yaml::Value as YamlValue;

verus! {

#[verifier::external_type_specification]
#[verifier::external_body]
#[verifier::reject_recursive_types(K)]
#[verifier::reject_recursive_types(V)]
#[verifier::reject_recursive_types(S)]
pub struct ExIndexMap<K, V, S>(IndexMap<K, V, S>);

/// The entries of a field map, as (key, value) pairs in the map's order.
pub uninterp spec fn fields_of(m: IndexMap<String, Value>) -> Seq<(Seq<char>, Value)>;

/// The fields of a document, in order.
pub type Fields = Seq<(Seq<char>, Value)>;

/// No two fields share a key.
pub open spec fn keys_distinct(f: Fields) -> bool {
    forall|i: int, j: int| 0 <= i < f.len() && 0 <= j < f.len() && i != j ==> f[i].0 != f[j].0
}

/// Some field has key `k`.
pub open spec fn has_key(f: Fields, k: Seq<char>) -> bool {
    exists|i: int| 0 <= i < f.len() && f[i].0 == k
}

/// The position of the field with key `k`.
pub open spec fn key_index(f: Fields, k: Seq<char>) -> int {
    choose|i: int| 0 <= i < f.len() && f[i].0 == k
}

/// The value stored under `k`.
pub open spec fn lookup(f: Fields, k: Seq<char>) -> Option<Value> {
    if has_key(f, k) {
        Some(f[key_index(f, k)].1)
    } else {
        None
    }
}

/// The fields after storing `v` under `k`: an existing key keeps its place,
/// a new key goes last.
pub open spec fn inserted(f: Fields, k: Seq<char>, v: Value) -> Fields {
    if has_key(f, k) {
        f.update(key_index(f, k), (k, v))
    } else {
        f.push((k, v))
    }
}

/// The fields after removing `k`; the others keep their order.
pub open spec fn removed(f: Fields, k: Seq<char>) -> Fields {
    if has_key(f, k) {
        f.remove(key_index(f, k))
    } else {
        f
    }
}

/// The keys of the fields, in order.
pub open spec fn keys_of(f: Fields) -> Seq<Seq<char>> {
    f.map_values(|e: (Seq<char>, Value)| e.0)
}

pub proof fn lemma_key_index(f: Fields, k: Seq<char>, i: int)
    requires
        keys_distinct(f),
        0 <= i < f.len(),
        f[i].0 == k,
    ensures
        has_key(f, k),
        key_index(f, k) == i,
        lookup(f, k) == Some(f[i].1),
{
}

pub proof fn lemma_inserted_distinct(f: Fields, k: Seq<char>, v: Value)
    requires
        keys_distinct(f),
    ensures
        keys_distinct(inserted(f, k, v)),
{
    if has_key(f, k) {
        let i = key_index(f, k);
        assert(f[i].0 == k);
    }
}

pub proof fn lemma_removed_distinct(f: Fields, k: Seq<char>)
    requires
        keys_distinct(f),
    ensures
        keys_distinct(removed(f, k)),
{
}

/// Relies on `IndexMap::new`: a new map holds no entries.
#[verifier::external_body]
fn map_new() -> (r: IndexMap<String, Value>)
    ensures
        fields_of(r) == Seq::<(Seq<char>, Value)>::empty(),
{
    IndexMap::new()
}

/// Relies on `IndexMap::len`: the number of entries.
#[verifier::external_body]
fn map_len(m: &IndexMap<String, Value>) -> (r: usize)
    ensures
        r == fields_of(*m).len(),
{
    m.len()
}

/// Relies on `IndexMap::get_index`: the entry at a position of the order.
#[verifier::external_body]
fn map_get_index(m: &IndexMap<String, Value>, i: usize) -> (r: Option<(&String, &Value)>)
    ensures
        i < fields_of(*m).len() ==> r is Some && r.unwrap().0@ == fields_of(*m)[i as int].0
            && *r.unwrap().1 == fields_of(*m)[i as int].1,
        i >= fields_of(*m).len() ==> r is None,
{
    m.get_index(i)
}

/// Relies on `IndexMap::get`: the value stored under an equal key.
#[verifier::external_body]
fn map_get<'a>(m: &'a IndexMap<String, Value>, k: &str) -> (r: Option<&'a Value>)
    requires
        keys_distinct(fields_of(*m)),
    ensures
        match r {
            Some(v) => lookup(fields_of(*m), k@) == Some(*v),
            None => lookup(fields_of(*m), k@) is None,
        },
{
    m.get(k)
}

/// Relies on `IndexMap::insert`: an equal key keeps its place and takes the new
/// value, whose predecessor is returned; otherwise the entry goes last. It
/// does not panic.
#[verifier::external_body]
fn map_insert(m: &mut IndexMap<String, Value>, k: String, v: Value) -> (r: Option<Value>)
    requires
        keys_distinct(fields_of(*old(m))),
    ensures
        fields_of(*final(m)) == inserted(fields_of(*old(m)), k@, v),
        r == lookup(fields_of(*old(m)), k@),
    no_unwind
{
    m.insert(k, v)
}

/// Relies on `IndexMap::shift_remove`: removes the entry with an equal key,
/// keeps the order of the others, and returns the removed value. It does not
/// panic.
#[verifier::external_body]
fn map_shift_remove(m: &mut IndexMap<String, Value>, k: &str) -> (r: Option<Value>)
    requires
        keys_distinct(fields_of(*old(m))),
    ensures
        fields_of(*final(m)) == removed(fields_of(*old(m)), k@),
        r == lookup(fields_of(*old(m)), k@),
    no_unwind
{
    m.shift_remove(k)
}

/// Relies on `IndexMap::into_iter`: yields the entries in the map's order.
#[verifier::external_body]
fn map_into_entries(m: IndexMap<String, Value>) -> (r: Vec<(String, Value)>)
    ensures
        r@.len() == fields_of(m).len(),
        forall|i: int|
            0 <= i < r@.len() ==> (#[trigger] r@[i]).0@ == fields_of(m)[i].0 && r@[i].1
                == fields_of(m)[i].1,
{
    m.into_iter().collect()
}

/// What `serde_yaml::to_string` writes for the fields as one mapping.
pub uninterp spec fn yaml_text_of(f: Fields) -> Option<Seq<char>>;

/// Relies on `serde_yaml::to_string`: the YAML text of the entries as one
/// mapping, or `None` when the codec fails.
#[verifier::external_body]
fn encode_fields(m: &IndexMap<String, Value>) -> (r: Option<String>)
    ensures
        match r {
            Some(s) => yaml_text_of(fields_of(*m)) == Some(s@),
            None => yaml_text_of(fields_of(*m)) is None,
        },
{
    let mapping: serde_yaml::Mapping = m.iter().map(
        |(k, v)| (YamlValue::String(k.clone()), to_yaml(v)),
    ).collect();
    serde_yaml::to_string(&mapping).ok()
}

/// A document: an ordered map from field name to value, with distinct keys.
/// (`==` compares the fields as a map, whatever their order.)
#[derive(Debug, PartialEq)]
pub struct Project {
    fields: IndexMap<String, Value>,
}

impl View for Project {
    type V = Fields;

    closed spec fn view(&self) -> Fields {
        fields_of(self.fields)
    }
}

impl Project {
    #[verifier::type_invariant]
    spec fn inv(self) -> bool {
        keys_distinct(fields_of(self.fields))
    }

    /// An empty document.
    pub fn new() -> (r: Project)
        ensures
            r@ == Seq::<(Seq<char>, Value)>::empty(),
    {
        Project { fields: map_new() }
    }

    /// The number of fields. (The keys of a document are always distinct.)
    pub fn len(&self) -> (r: usize)
        ensures
            r == self@.len(),
            keys_distinct(self@),
    {
        proof {
            use_type_invariant(self);
        }
        map_len(&self.fields)
    }

    /// The field at position `i` of the order.
    pub fn get_index(&self, i: usize) -> (r: Option<(&String, &Value)>)
        ensures
            i < self@.len() ==> r is Some && r.unwrap().0@ == self@[i as int].0
                && *r.unwrap().1 == self@[i as int].1,
            i >= self@.len() ==> r is None,
    {
        map_get_index(&self.fields, i)
    }

    /// The value stored under `key`.
    pub fn get(&self, key: &str) -> (r: Option<&Value>)
        ensures
            match r {
                Some(v) => lookup(self@, key@) == Some(*v),
                None => lookup(self@, key@) is None,
            },
    {
        proof {
            use_type_invariant(self);
        }
        map_get(&self.fields, key)
    }

    /// Whether some field has key `key`.
    pub fn contains_key(&self, key: &str) -> (r: bool)
        ensures
            r == has_key(self@, key@),
    {
        self.get(key).is_some()
    }

    /// Stores `value` under `key`: an existing key keeps its place, a new one
    /// goes last. Returns the value that was replaced.
    pub fn insert(&mut self, key: String, value: Value) -> (r: Option<Value>)
        ensures
            final(self)@ == inserted(old(self)@, key@, value),
            r == lookup(old(self)@, key@),
            keys_distinct(old(self)@),
            keys_distinct(final(self)@),
    {
        proof {
            use_type_invariant(&*self);
            lemma_inserted_distinct(fields_of(self.fields), key@, value);
        }
        map_insert(&mut self.fields, key, value)
    }

    /// Removes the field with key `key`, keeping the order of the others.
    /// Returns its value.
    pub fn shift_remove(&mut self, key: &str) -> (r: Option<Value>)
        ensures
            final(self)@ == removed(old(self)@, key@),
            r == lookup(old(self)@, key@),
            keys_distinct(old(self)@),
            keys_distinct(final(self)@),
    {
        proof {
            use_type_invariant(&*self);
            lemma_removed_distinct(fields_of(self.fields), key@);
        }
        map_shift_remove(&mut self.fields, key)
    }

    /// The fields, in order.
    pub fn into_entries(self) -> (r: Vec<(String, Value)>)
        ensures
            r@.len() == self@.len(),
            forall|i: int|
                0 <= i < r@.len() ==> (#[trigger] r@[i]).0@ == self@[i].0 && r@[i].1 == self@[i].1,
    {
        map_into_entries(self.fields)
    }

    /// The YAML text of the document, a mapping in the order of the fields.
    pub fn encode_yaml(&self) -> (r: Option<String>)
        ensures
            match r {
                Some(s) => yaml_text_of(self@) == Some(s@),
                None => yaml_text_of(self@) is None,
            },
    {
        encode_fields(&self.fields)
    }

    /// The keys, in order.
    pub fn keys(&self) -> (r: Vec<String>)
        ensures
            r@.len() == self@.len(),
            forall|i: int| 0 <= i < r@.len() ==> (#[trigger] r@[i])@ == self@[i].0,
    {
        let n = self.len();
        let mut out: Vec<String> = Vec::new();
        let mut i: usize = 0;
        while i < n
            invariant
                i <= n,
                n == self@.len(),
                out@.len() == i,
                forall|j: int| 0 <= j < i ==> (#[trigger] out@[j])@ == self@[j].0,
            decreases n - i,
        {
            match self.get_index(i) {
                Some((k, _)) => out.push(k.clone()),
                None => {},
            }
            i += 1;
        }
        out
    }
}

} // verus!
