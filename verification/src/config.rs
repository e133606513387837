//! The configuration documents of profiles.
//!
//! A document is a mapping of the `serde_yaml_ng` crate. Its contents are spoken of by names:
//! the entries of a mapping in their order, and the tree that a value is.

use serde_yaml_ng::{Mapping, Value};
use vstd::prelude::*;

verus! {

/// The mappings of `serde_yaml_ng`.
#[verifier::external_type_specification]
#[verifier::external_body]
pub struct ExMapping(Mapping);

/// The values of `serde_yaml_ng`.
#[verifier::external_type_specification]
#[verifier::external_body]
pub struct ExValue(Value);

/// What a value of a document is.
pub enum ConfigView {
    Text(Seq<char>),
    Flag(bool),
    Number(int),
    List(Seq<ConfigView>),
    Table(Seq<(ConfigView, ConfigView)>),
    Tagged(Seq<char>, Box<ConfigView>),
    Other(Value),
}

/// Names the entries of a mapping: keys and values in their order.
pub uninterp spec fn entries(mapping: Mapping) -> Seq<(ConfigView, ConfigView)>;

/// Names the tree that a value is.
pub uninterp spec fn content(value: Value) -> ConfigView;

/// A value without its tags.
pub open spec fn bare(view: ConfigView) -> ConfigView
    decreases view,
{
    match view {
        ConfigView::Tagged(_, inner) => bare(*inner),
        _ => view,
    }
}

/// A value with another one inside its tags.
pub open spec fn with_bare(view: ConfigView, inside: ConfigView) -> ConfigView
    decreases view,
{
    match view {
        ConfigView::Tagged(tag, inner) => ConfigView::Tagged(tag, Box::new(with_bare(*inner, inside))),
        _ => inside,
    }
}

/// The index of the entry with a text as its key, or the number of entries.
pub open spec fn entry_at(entries: Seq<(ConfigView, ConfigView)>, key: Seq<char>) -> int
    decreases entries.len(),
{
    if entries.len() == 0 {
        0
    } else if entries[0].0 == ConfigView::Text(key) {
        0
    } else {
        1 + entry_at(entries.drop_first(), key)
    }
}

/// The value of the entry with a text as its key.
pub open spec fn entry(entries: Seq<(ConfigView, ConfigView)>, key: Seq<char>) -> Option<ConfigView> {
    let at = entry_at(entries, key);
    if at < entries.len() {
        Some(entries[at].1)
    } else {
        None
    }
}

/// The entries with a value put under a key: in the place of the former value, or at the end.
pub open spec fn with_entry(
    entries: Seq<(ConfigView, ConfigView)>,
    key: Seq<char>,
    value: ConfigView,
) -> Seq<(ConfigView, ConfigView)> {
    let at = entry_at(entries, key);
    if at < entries.len() {
        entries.update(at, (entries[at].0, value))
    } else {
        entries.push((ConfigView::Text(key), value))
    }
}

/// The entries without a key: the last entry takes the place of the removed one.
pub open spec fn without_entry(entries: Seq<(ConfigView, ConfigView)>, key: Seq<char>) -> Seq<
    (ConfigView, ConfigView),
> {
    let at = entry_at(entries, key);
    if at >= entries.len() {
        entries
    } else if at == entries.len() - 1 {
        entries.drop_last()
    } else {
        entries.update(at, entries.last()).drop_last()
    }
}

/// `Mapping::new` of `serde_yaml_ng` gives a mapping without entries.
pub assume_specification[ Mapping::new ]() -> (mapping: Mapping)
    ensures
        entries(mapping) == Seq::<(ConfigView, ConfigView)>::empty(),
;

/// `Mapping::len` of `serde_yaml_ng` counts the entries.
pub assume_specification[ Mapping::len ](mapping: &Mapping) -> (length: usize)
    ensures
        length == entries(*mapping).len(),
;

/// `Mapping::get` of `serde_yaml_ng` with a text finds the value whose key is that text.
#[verifier::external_body]
pub(crate) fn find<'a>(mapping: &'a Mapping, key: &str) -> (value: Option<&'a Value>)
    ensures
        match value {
            Some(value) => entry(entries(*mapping), key@) == Some(content(*value)),
            None => entry(entries(*mapping), key@) is None,
        },
{
    mapping.get(key)
}

/// `Mapping::get_mut` of `serde_yaml_ng` with a text lends the value whose key is that text; what
/// is written there is the value of the entry afterwards.
#[verifier::external_body]
pub(crate) fn find_mut<'a>(mapping: &'a mut Mapping, key: &str) -> (value: Option<&'a mut Value>)
    ensures
        match value {
            Some(value) => {
                let at = entry_at(entries(*old(mapping)), key@);
                &&& entry(entries(*old(mapping)), key@) == Some(content(*value))
                &&& entries(*final(mapping)) == entries(*old(mapping)).update(
                    at,
                    (entries(*old(mapping))[at].0, content(*final(value))),
                )
            },
            None => entry(entries(*old(mapping)), key@) is None && *final(mapping) == *old(mapping),
        },
{
    mapping.get_mut(key)
}

/// `Value::as_mapping_mut` of `serde_yaml_ng` lends the mapping inside the tags of a value.
pub assume_specification[ Value::as_mapping_mut ](value: &mut Value) -> (mapping: Option<&mut Mapping>)
    ensures
        match mapping {
            Some(mapping) => {
                &&& bare(content(*old(value))) == ConfigView::Table(entries(*mapping))
                &&& content(*final(value)) == with_bare(
                    content(*old(value)),
                    ConfigView::Table(entries(*final(mapping))),
                )
            },
            None => !(bare(content(*old(value))) is Table) && *final(value) == *old(value),
        },
;

/// `Mapping::insert` of `serde_yaml_ng` with a text as the key replaces the value of its entry or
/// appends an entry.
#[verifier::external_body]
pub(crate) fn put(mapping: &mut Mapping, key: &str, value: Value)
    ensures
        entries(*final(mapping)) == with_entry(entries(*old(mapping)), key@, content(value)),
{
    mapping.insert(Value::String(key.to_owned()), value);
}

/// `Mapping::remove` of `serde_yaml_ng` with a text takes out its entry and puts the last entry in
/// its place.
#[verifier::external_body]
pub(crate) fn take_out(mapping: &mut Mapping, key: &str)
    ensures
        entries(*final(mapping)) == without_entry(entries(*old(mapping)), key@),
{
    mapping.remove(key);
}

/// `Mapping::values` of `serde_yaml_ng` walks the values in the order of the entries.
#[verifier::external_body]
pub(crate) fn value_at<'a>(mapping: &'a Mapping, i: usize) -> (value: Option<&'a Value>)
    ensures
        match value {
            Some(value) => i < entries(*mapping).len() && entries(*mapping)[i as int].1 == content(*value),
            None => i >= entries(*mapping).len(),
        },
{
    mapping.values().nth(i)
}

/// `Mapping::values_mut` of `serde_yaml_ng` lends the values in the order of the entries; what is
/// written there is the value of the entry afterwards.
#[verifier::external_body]
pub(crate) fn value_mut_at<'a>(mapping: &'a mut Mapping, i: usize) -> (value: Option<&'a mut Value>)
    ensures
        match value {
            Some(value) => {
                &&& i < entries(*old(mapping)).len()
                &&& entries(*old(mapping))[i as int].1 == content(*value)
                &&& entries(*final(mapping)) == entries(*old(mapping)).update(
                    i as int,
                    (entries(*old(mapping))[i as int].0, content(*final(value))),
                )
            },
            None => i >= entries(*old(mapping)).len() && *final(mapping) == *old(mapping),
        },
{
    mapping.values_mut().nth(i)
}

/// A copy of a mapping of `serde_yaml_ng` has the same entries.
pub assume_specification[ <Mapping as Clone>::clone ](mapping: &Mapping) -> (copy: Mapping)
    ensures
        entries(copy) == entries(*mapping),
;

/// A copy of a value of `serde_yaml_ng` is the same tree.
pub assume_specification[ <Value as Clone>::clone ](value: &Value) -> (copy: Value)
    ensures
        content(copy) == content(*value),
;

/// `Value::as_str` of `serde_yaml_ng` lends the text inside the tags of a value.
pub assume_specification[ Value::as_str ](value: &Value) -> (text: Option<&str>)
    ensures
        match text {
            Some(text) => bare(content(*value)) == ConfigView::Text(text@),
            None => !(bare(content(*value)) is Text),
        },
;

/// `Value::as_sequence` of `serde_yaml_ng` lends the list inside the tags of a value.
pub assume_specification[ Value::as_sequence ](value: &Value) -> (items: Option<&Vec<Value>>)
    ensures
        match items {
            Some(items) => bare(content(*value)) == ConfigView::List(contents(items@)),
            None => !(bare(content(*value)) is List),
        },
;

/// `Value::as_mapping` of `serde_yaml_ng` lends the mapping inside the tags of a value.
pub assume_specification[ Value::as_mapping ](value: &Value) -> (mapping: Option<&Mapping>)
    ensures
        match mapping {
            Some(mapping) => bare(content(*value)) == ConfigView::Table(entries(*mapping)),
            None => !(bare(content(*value)) is Table),
        },
;

/// The trees that values are.
pub open spec fn contents(values: Seq<Value>) -> Seq<ConfigView> {
    values.map_values(|value: Value| content(value))
}

/// `Value::String` of `serde_yaml_ng` makes a value of a text.
#[verifier::external_body]
pub(crate) fn text_value(text: &str) -> (value: Value)
    ensures
        content(value) == ConfigView::Text(text@),
{
    Value::String(text.to_owned())
}

/// `Value::Bool` of `serde_yaml_ng` makes a value of a truth value.
#[verifier::external_body]
pub(crate) fn flag_value(flag: bool) -> (value: Value)
    ensures
        content(value) == ConfigView::Flag(flag),
{
    Value::Bool(flag)
}

/// `Value::Number` of `serde_yaml_ng` makes a value of a number.
#[verifier::external_body]
pub(crate) fn number_value(number: u16) -> (value: Value)
    ensures
        content(value) == ConfigView::Number(number as int),
{
    Value::Number(number.into())
}

/// `Value::Sequence` of `serde_yaml_ng` makes a value of a list.
#[verifier::external_body]
pub(crate) fn list_value(items: Vec<Value>) -> (value: Value)
    ensures
        content(value) == ConfigView::List(contents(items@)),
{
    Value::Sequence(items)
}

/// `Value::Mapping` of `serde_yaml_ng` makes a value of a mapping.
#[verifier::external_body]
pub(crate) fn table_value(mapping: Mapping) -> (value: Value)
    ensures
        content(value) == ConfigView::Table(entries(mapping)),
{
    Value::Mapping(mapping)
}

/// Names what `serde_json::to_vec` writes for a mapping with the given entries: the bytes, or the
/// text of the error.
pub uninterp spec fn json_of(entries: Seq<(ConfigView, ConfigView)>) -> Result<Seq<u8>, Seq<char>>;

/// `serde_json::to_vec` writes a mapping entry by entry: what comes out depends on the entries
/// alone.
#[verifier::external_body]
pub(crate) fn to_json(mapping: &Mapping) -> (result: Result<Vec<u8>, String>)
    ensures
        match result {
            Ok(bytes) => json_of(entries(*mapping)) == Ok::<Seq<u8>, Seq<char>>(bytes@),
            Err(reason) => json_of(entries(*mapping)) == Err::<Seq<u8>, Seq<char>>(reason@),
        },
{
    serde_json::to_vec(mapping).map_err(|error| error.to_string())
}

/// Names what `serde_yaml_ng::from_str` reads from a text: the tree, or nothing where the text is
/// no document.
pub uninterp spec fn parsed_config(text: Seq<char>) -> Option<ConfigView>;

/// `serde_yaml_ng::from_str` reads a value from a text: what comes out depends on the text alone.
#[verifier::external_body]
pub(crate) fn parse_config(text: &str) -> (value: Option<Value>)
    ensures
        match value {
            Some(value) => parsed_config(text@) == Some(content(value)),
            None => parsed_config(text@) is None,
        },
{
    serde_yaml_ng::from_str::<Value>(text).ok()
}

/// The entries of the mapping under a key; nothing where there is none.
pub open spec fn table_entry(entries: Seq<(ConfigView, ConfigView)>, key: Seq<char>) -> Option<
    Seq<(ConfigView, ConfigView)>,
> {
    match entry(entries, key) {
        Some(value) => match bare(value) {
            ConfigView::Table(inner) => Some(inner),
            _ => None,
        },
        None => None,
    }
}

/// The text under a key; nothing where there is none.
pub open spec fn text_entry(entries: Seq<(ConfigView, ConfigView)>, key: Seq<char>) -> Option<Seq<char>> {
    match entry(entries, key) {
        Some(value) => match bare(value) {
            ConfigView::Text(text) => Some(text),
            _ => None,
        },
        None => None,
    }
}

/// The text under a key.
pub(crate) fn find_text<'a>(mapping: &'a Mapping, key: &str) -> (text: Option<&'a str>)
    ensures
        match text {
            Some(text) => text_entry(entries(*mapping), key@) == Some(text@),
            None => text_entry(entries(*mapping), key@) is None,
        },
{
    match find(mapping, key) {
        Some(value) => value.as_str(),
        None => None,
    }
}

/// The mapping under a key.
pub(crate) fn find_table<'a>(mapping: &'a Mapping, key: &str) -> (table: Option<&'a Mapping>)
    ensures
        match table {
            Some(table) => table_entry(entries(*mapping), key@) == Some(entries(*table)),
            None => table_entry(entries(*mapping), key@) is None,
        },
{
    match find(mapping, key) {
        Some(value) => value.as_mapping(),
        None => None,
    }
}

/// The index of a key points to the first entry with it.
pub proof fn lemma_entry_at(entries: Seq<(ConfigView, ConfigView)>, key: Seq<char>)
    ensures
        0 <= entry_at(entries, key) <= entries.len(),
        entry_at(entries, key) < entries.len() ==> entries[entry_at(entries, key)].0 == ConfigView::Text(key),
        forall|i: int| 0 <= i < entry_at(entries, key) ==> (#[trigger] entries[i]).0 != ConfigView::Text(key),
    decreases entries.len(),
{
    if entries.len() > 0 && entries[0].0 != ConfigView::Text(key) {
        let rest = entries.drop_first();
        lemma_entry_at(rest, key);
        assert forall|i: int| 0 <= i < entry_at(entries, key) implies (#[trigger] entries[i]).0
            != ConfigView::Text(key) by {
            if i > 0 {
                assert(rest[i - 1] == entries[i]);
            }
        }
    }
}

} // verus!
