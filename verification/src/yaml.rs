//! YAML documents, held as `serde_yaml` values.
//!
//! Every item of this module that Verus believes without proof is a thin call
//! into `serde_yaml`. What such a value holds is modelled by [`Yaml`].

use vstd::prelude::*;

verus! {

/// What a YAML value is: the mathematical model of `serde_yaml::Value`.
///
/// A number is modelled by its text. A mapping keeps its entries in order.
pub enum Yaml {
    Null,
    Bool(bool),
    Number(Seq<char>),
    Text(Seq<char>),
    Sequence(Seq<Yaml>),
    Mapping(Seq<(Yaml, Yaml)>),
    Tagged(Seq<char>, Box<Yaml>),
}

/// `serde_yaml::Value`, carried through as it is.
#[verifier::external_type_specification]
#[verifier::external_body]
pub struct ExValue(serde_yaml::Value);

/// `serde_yaml::Mapping`, an insertion-ordered map from values to values.
#[verifier::external_type_specification]
#[verifier::external_body]
pub struct ExMapping(serde_yaml::Mapping);

/// `serde_yaml::Error`, which no logic looks into.
#[verifier::external_type_specification]
#[verifier::external_body]
pub struct ExError(serde_yaml::Error);

/// What a `serde_yaml::Value` holds.
pub uninterp spec fn yaml_value(v: serde_yaml::Value) -> Yaml;

/// The entries of a `serde_yaml::Mapping`, in their order.
pub uninterp spec fn yaml_entries(m: serde_yaml::Mapping) -> Seq<(Yaml, Yaml)>;

/// The document that `serde_yaml::from_str` reads from a text, if it reads one.
pub uninterp spec fn yaml_parsed(text: Seq<char>) -> Option<Yaml>;

/// The text that `serde_yaml::to_string` writes for a value, if it writes one.
pub uninterp spec fn yaml_rendered(value: Yaml) -> Option<Seq<char>>;

impl Yaml {
    /// The value under any number of tags.
    pub open spec fn untagged(self) -> Yaml
        decreases self,
    {
        match self {
            Yaml::Tagged(_, inner) => inner.untagged(),
            _ => self,
        }
    }

    /// The entries of a mapping, looking through tags.
    pub open spec fn as_mapping(self) -> Option<Seq<(Yaml, Yaml)>> {
        match self.untagged() {
            Yaml::Mapping(entries) => Some(entries),
            _ => None,
        }
    }

    /// The truth value of a boolean, looking through tags.
    pub open spec fn as_bool(self) -> Option<bool> {
        match self.untagged() {
            Yaml::Bool(b) => Some(b),
            _ => None,
        }
    }

    /// The text of a string, looking through tags.
    pub open spec fn as_text(self) -> Option<Seq<char>> {
        match self.untagged() {
            Yaml::Text(s) => Some(s),
            _ => None,
        }
    }
}

/// The position of the first entry from `from` on whose key is the string `key`.
pub open spec fn key_position(entries: Seq<(Yaml, Yaml)>, key: Seq<char>, from: int) -> Option<int>
    decreases entries.len() - from,
{
    if from < 0 || from >= entries.len() {
        None
    } else if entries[from].0 == Yaml::Text(key) {
        Some(from)
    } else {
        key_position(entries, key, from + 1)
    }
}

/// The value under the string key `key`.
pub open spec fn entry(entries: Seq<(Yaml, Yaml)>, key: Seq<char>) -> Option<Yaml> {
    match key_position(entries, key, 0) {
        Some(i) => Some(entries[i].1),
        None => None,
    }
}

/// The entries with `value` under the string key `key`: an entry that is there
/// keeps its place, a new one comes last.
pub open spec fn with_entry(entries: Seq<(Yaml, Yaml)>, key: Seq<char>, value: Yaml) -> Seq<
    (Yaml, Yaml),
> {
    match key_position(entries, key, 0) {
        Some(i) => entries.update(i, (entries[i].0, value)),
        None => entries.push((Yaml::Text(key), value)),
    }
}

/// Calls `serde_yaml::from_str`: the result depends on the text alone.
#[verifier::external_body]
pub(crate) fn parse_document(text: &str) -> (r: Result<serde_yaml::Value, serde_yaml::Error>)
    ensures
        match r {
            Ok(v) => yaml_parsed(text@) == Some(yaml_value(v)),
            Err(_) => yaml_parsed(text@) is None,
        },
{
    serde_yaml::from_str(text)
}

/// Calls `serde_yaml::Mapping::get` with a string key: the value of the entry
/// with that key, if there is one.
#[verifier::external_body]
pub(crate) fn mapping_get<'a>(m: &'a serde_yaml::Mapping, key: &str) -> (r: Option<
    &'a serde_yaml::Value,
>)
    ensures
        match r {
            Some(v) => entry(yaml_entries(*m), key@) == Some(yaml_value(*v)),
            None => entry(yaml_entries(*m), key@) is None,
        },
{
    m.get(serde_yaml::Value::String(key.to_string()))
}

/// Calls `serde_yaml::Mapping::insert` with a string key.
#[verifier::external_body]
pub(crate) fn mapping_insert(m: &mut serde_yaml::Mapping, key: &str, value: serde_yaml::Value)
    ensures
        yaml_entries(*final(m)) == with_entry(yaml_entries(*old(m)), key@, yaml_value(value)),
{
    m.insert(serde_yaml::Value::String(key.to_string()), value);
}

/// Calls `serde_yaml::to_string` on a value: the text depends on what the value
/// holds alone.
#[verifier::external_body]
pub(crate) fn render_document(v: &serde_yaml::Value) -> (r: Result<String, serde_yaml::Error>)
    ensures
        match r {
            Ok(s) => yaml_rendered(yaml_value(*v)) == Some(s@),
            Err(_) => yaml_rendered(yaml_value(*v)) is None,
        },
{
    serde_yaml::to_string(v)
}

/// Calls `serde_yaml::Value::as_mapping`, which looks through tags.
#[verifier::external_body]
pub(crate) fn value_as_mapping(v: &serde_yaml::Value) -> (r: Option<&serde_yaml::Mapping>)
    ensures
        match r {
            Some(m) => yaml_value(*v).as_mapping() == Some(yaml_entries(*m)),
            None => yaml_value(*v).as_mapping() is None,
        },
{
    v.as_mapping()
}

/// Tells whether a value is of the variant `serde_yaml::Value::Mapping`, and
/// hands out the mapping in it. A tagged value is of another variant.
#[verifier::external_body]
pub(crate) fn value_mapping(v: &serde_yaml::Value) -> (r: Option<&serde_yaml::Mapping>)
    ensures
        match r {
            Some(m) => yaml_value(*v) == Yaml::Mapping(yaml_entries(*m)),
            None => !(yaml_value(*v) is Mapping),
        },
{
    match v {
        serde_yaml::Value::Mapping(m) => Some(m),
        _ => None,
    }
}

/// Calls `serde_yaml::Value::as_bool`, which looks through tags.
#[verifier::external_body]
pub(crate) fn value_as_bool(v: &serde_yaml::Value) -> (r: Option<bool>)
    ensures
        r == yaml_value(*v).as_bool(),
{
    v.as_bool()
}

/// Calls `serde_yaml::Value::as_str`, which looks through tags.
#[verifier::external_body]
pub(crate) fn value_as_str(v: &serde_yaml::Value) -> (r: Option<&str>)
    ensures
        match r {
            Some(s) => yaml_value(*v).as_text() == Some(s@),
            None => yaml_value(*v).as_text() is None,
        },
{
    v.as_str()
}

/// Calls `serde_yaml::Mapping::new`: a mapping without entries.
#[verifier::external_body]
pub(crate) fn mapping_new() -> (r: serde_yaml::Mapping)
    ensures
        yaml_entries(r) == Seq::<(Yaml, Yaml)>::empty(),
{
    serde_yaml::Mapping::new()
}

/// Calls `clone` of `serde_yaml::Mapping`, which its `derive` writes: the clone
/// has the same entries in the same order.
#[verifier::external_body]
pub(crate) fn mapping_clone(m: &serde_yaml::Mapping) -> (r: serde_yaml::Mapping)
    ensures
        yaml_entries(r) == yaml_entries(*m),
{
    m.clone()
}

/// Calls `clone` of `serde_yaml::Value`, which its `derive` writes: the clone
/// holds the same.
#[verifier::external_body]
pub(crate) fn value_clone(v: &serde_yaml::Value) -> (r: serde_yaml::Value)
    ensures
        yaml_value(r) == yaml_value(*v),
{
    v.clone()
}

/// Calls `serde_yaml::Mapping::iter`: the entries in their order.
#[verifier::external_body]
pub(crate) fn mapping_items(m: &serde_yaml::Mapping) -> (r: Vec<
    (&serde_yaml::Value, &serde_yaml::Value),
>)
    ensures
        r@.len() == yaml_entries(*m).len(),
        forall|i: int|
            0 <= i < r@.len() ==> (yaml_value(*(#[trigger] r@[i]).0), yaml_value(*r@[i].1))
                == yaml_entries(*m)[i],
{
    m.iter().collect()
}

/// Builds `serde_yaml::Value::String`.
#[verifier::external_body]
pub(crate) fn text_value(s: &str) -> (r: serde_yaml::Value)
    ensures
        yaml_value(r) == Yaml::Text(s@),
{
    serde_yaml::Value::String(s.to_string())
}

/// Builds `serde_yaml::Value::Bool`.
#[verifier::external_body]
pub(crate) fn bool_value(b: bool) -> (r: serde_yaml::Value)
    ensures
        yaml_value(r) == Yaml::Bool(b),
{
    serde_yaml::Value::Bool(b)
}

/// Builds `serde_yaml::Value::Mapping`.
#[verifier::external_body]
pub(crate) fn mapping_value(m: serde_yaml::Mapping) -> (r: serde_yaml::Value)
    ensures
        yaml_value(r) == Yaml::Mapping(yaml_entries(m)),
{
    serde_yaml::Value::Mapping(m)
}

/// Builds `serde_yaml::Value::Sequence` of one element.
#[verifier::external_body]
pub(crate) fn single_value(v: serde_yaml::Value) -> (r: serde_yaml::Value)
    ensures
        yaml_value(r) == Yaml::Sequence(seq![yaml_value(v)]),
{
    serde_yaml::Value::Sequence(vec![v])
}

/// A value under a tag is read as the value itself, under any number of tags; and only a boolean, a
/// string or a mapping is read as one.
pub proof fn law_tags_do_not_matter(tag: Seq<char>, v: Yaml, b: bool, s: Seq<char>, m: Seq<(Yaml, Yaml)>)
    ensures
        Yaml::Tagged(tag, Box::new(v)).as_bool() == v.as_bool(),
        Yaml::Tagged(tag, Box::new(v)).as_text() == v.as_text(),
        Yaml::Tagged(tag, Box::new(v)).as_mapping() == v.as_mapping(),
        Yaml::Bool(b).as_bool() == Some(b),
        Yaml::Text(s).as_text() == Some(s),
        Yaml::Mapping(m).as_mapping() == Some(m),
        v is Null || v is Number || v is Sequence ==> v.as_bool() is None && v.as_text() is None
            && v.as_mapping() is None,
        Yaml::Text(s).as_bool() is None && Yaml::Mapping(m).as_bool() is None,
{
}

/// An entry is found under its key; setting it keeps the place of one that is there, adds a new one
/// behind the others, and changes nothing else.
pub proof fn law_entries(entries: Seq<(Yaml, Yaml)>, key: Seq<char>, v: Yaml, i: int)
    requires
        0 <= i < entries.len(),
    ensures
        (forall|j: int| 0 <= j < entries.len() ==> (#[trigger] entries[j]).0 != Yaml::Text(key))
            ==> entry(entries, key) is None && with_entry(entries, key, v) == entries.push(
            (Yaml::Text(key), v),
        ),
        entries[i].0 == Yaml::Text(key) && (forall|j: int|
            0 <= j < i ==> (#[trigger] entries[j]).0 != Yaml::Text(key)) ==> entry(entries, key)
            == Some(entries[i].1) && with_entry(entries, key, v) == entries.update(
            i,
            (Yaml::Text(key), v),
        ),
{
    lemma_position(entries, key, 0);
}

/// The position of a key is the first there is.
proof fn lemma_position(entries: Seq<(Yaml, Yaml)>, key: Seq<char>, from: int)
    requires
        0 <= from,
    ensures
        match key_position(entries, key, from) {
            Some(i) => from <= i < entries.len() && entries[i].0 == Yaml::Text(key) && forall|j: int|
                from <= j < i ==> (#[trigger] entries[j]).0 != Yaml::Text(key),
            None => forall|j: int|
                from <= j < entries.len() ==> (#[trigger] entries[j]).0 != Yaml::Text(key),
        },
    decreases entries.len() - from,
{
    if from < entries.len() && entries[from].0 != Yaml::Text(key) {
        lemma_position(entries, key, from + 1);
    }
}

} // verus!
