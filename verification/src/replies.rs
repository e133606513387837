//! The replies of the isolated core.
//!
//! A reply is a value of the `serde_json` crate. What it is is spoken of by a name: the tree that
//! the value is.

use serde_json::Value;
use vstd::prelude::*;

use crate::errors::BenchmarkError;
use crate::profile::node_pairs;

verus! {

/// The values of `serde_json`.
#[verifier::external_type_specification]
#[verifier::external_body]
pub struct ExReply(Value);

/// What a value of a reply is.
pub enum ReplyView {
    Text(Seq<char>),
    /// A whole number from zero on that fits into 64 bits.
    Count(u64),
    List(Seq<ReplyView>),
    Table(Seq<(Seq<char>, ReplyView)>),
    Other(Value),
}

/// Names the tree that a value is.
pub uninterp spec fn tree(value: Value) -> ReplyView;

/// The trees that values are.
pub open spec fn trees(values: Seq<Value>) -> Seq<ReplyView> {
    values.map_values(|value: Value| tree(value))
}

/// The value under a key.
pub open spec fn field_of(fields: Seq<(Seq<char>, ReplyView)>, key: Seq<char>) -> Option<ReplyView>
    decreases fields.len(),
{
    if fields.len() == 0 {
        None
    } else if fields[0].0 == key {
        Some(fields[0].1)
    } else {
        field_of(fields.drop_first(), key)
    }
}

impl ReplyView {
    /// The value under a key; only tables have some.
    pub open spec fn field(self, key: Seq<char>) -> Option<ReplyView> {
        match self {
            ReplyView::Table(fields) => field_of(fields, key),
            _ => None,
        }
    }
}

/// `Value::get` of `serde_json` with a text finds the value under that key of a table, and nothing
/// in any other value.
#[verifier::external_body]
pub(crate) fn field<'a>(value: &'a Value, key: &str) -> (found: Option<&'a Value>)
    ensures
        match found {
            Some(found) => tree(*value).field(key@) == Some(tree(*found)),
            None => tree(*value).field(key@) is None,
        },
{
    value.get(key)
}

/// `Value::as_str` of `serde_json` lends the text that a value is.
pub assume_specification[ Value::as_str ](value: &Value) -> (text: Option<&str>)
    ensures
        match text {
            Some(text) => tree(*value) == ReplyView::Text(text@),
            None => !(tree(*value) is Text),
        },
;

/// `Value::as_u64` of `serde_json` gives the number that a value is, where it is a whole number
/// from zero on that fits into 64 bits.
pub assume_specification[ Value::as_u64 ](value: &Value) -> (count: Option<u64>)
    ensures
        match count {
            Some(count) => tree(*value) == ReplyView::Count(count),
            None => !(tree(*value) is Count),
        },
;

/// `Value::as_array` of `serde_json` lends the list that a value is.
pub assume_specification[ Value::as_array ](value: &Value) -> (items: Option<&Vec<Value>>)
    ensures
        match items {
            Some(items) => tree(*value) == ReplyView::List(trees(items@)),
            None => !(tree(*value) is List),
        },
;

/// The type that a reply about all proxies gives one of them; unknown without one.
pub open spec fn listed_type(all: ReplyView, name: Seq<char>) -> Seq<char> {
    match all.field("proxies"@) {
        Some(proxies) => match proxies.field(name) {
            Some(proxy) => match proxy.field("type"@) {
                Some(ReplyView::Text(node_type)) => node_type,
                _ => "Unknown"@,
            },
            None => "Unknown"@,
        },
        None => "Unknown"@,
    }
}

/// The members of a group with their types; members that are no text are left out.
pub open spec fn listed_nodes(all: ReplyView, members: Seq<ReplyView>) -> Seq<(Seq<char>, Seq<char>)>
    decreases members.len(),
{
    if members.len() == 0 {
        Seq::empty()
    } else {
        let front = listed_nodes(all, members.drop_last());
        match members.last() {
            ReplyView::Text(name) => front.push((name, listed_type(all, name))),
            _ => front,
        }
    }
}

fn find_type(all: &Value, name: &str) -> (node_type: String)
    ensures
        node_type@ == listed_type(tree(*all), name@),
{
    match field(all, "proxies") {
        Some(proxies) => match field(proxies, name) {
            Some(proxy) => match field(proxy, "type") {
                Some(value) => match value.as_str() {
                    Some(node_type) => node_type.to_owned(),
                    None => "Unknown".to_owned(),
                },
                None => "Unknown".to_owned(),
            },
            None => "Unknown".to_owned(),
        },
        None => "Unknown".to_owned(),
    }
}

/// The nodes of the test group with their types, given the reply about all proxies and the one
/// about the group. A reply without a list of members is refused.
pub fn list_nodes(all: &Value, group: &Value) -> (result: Result<Vec<(String, String)>, BenchmarkError>)
    ensures
        match tree(*group).field("all"@) {
            Some(ReplyView::List(members)) => result is Ok && node_pairs(result->Ok_0@) == listed_nodes(
                tree(*all),
                members,
            ),
            _ => result is Err && result->Err_0 == BenchmarkError::NodeListMissing,
        },
{
    let members: &Vec<Value> = match field(group, "all") {
        Some(list) => match list.as_array() {
            Some(members) => members,
            None => {
                return Err(BenchmarkError::NodeListMissing);
            },
        },
        None => {
            return Err(BenchmarkError::NodeListMissing);
        },
    };
    let ghost views = trees(members@);
    let mut result: Vec<(String, String)> = Vec::new();
    assert(node_pairs(result@) =~= Seq::empty());
    assert(views.take(0) =~= Seq::empty());
    for i in 0..members.len()
        invariant
            views == trees(members@),
            node_pairs(result@) == listed_nodes(tree(*all), views.take(i as int)),
    {
        assert(views.take(i + 1).drop_last() =~= views.take(i as int));
        assert(views.take(i + 1).last() == tree(members@[i as int]));
        match members[i].as_str() {
            Some(name) => {
                let ghost before = result@;
                let node_type = find_type(all, name);
                result.push((name.to_owned(), node_type));
                assert(node_pairs(result@) =~= node_pairs(before).push((name@, node_type@)));
            },
            None => {},
        }
    }
    assert(views.take(views.len() as int) =~= views);
    Ok(result)
}

/// The delay of a node from a reply: a positive number of at most 32 bits.
pub fn reply_delay(node_name: &str, reply: &Value) -> (result: Result<u32, BenchmarkError>)
    ensures
        match result {
            Ok(delay) => delay > 0 && tree(*reply).field("delay"@) == Some(ReplyView::Count(delay as u64)),
            Err(error) => {
                &&& !(tree(*reply).field("delay"@) matches Some(ReplyView::Count(value)) && 0 < value <= u32::MAX)
                &&& error is DelayMissing && error->DelayMissing_node_name@ == node_name@
            },
        },
{
    match field(reply, "delay") {
        Some(value) => match value.as_u64() {
            Some(delay) => {
                if 0 < delay && delay <= u32::MAX as u64 {
                    return Ok(delay as u32);
                }
            },
            None => {},
        },
        None => {},
    }
    Err(BenchmarkError::DelayMissing { node_name: node_name.to_owned() })
}

} // verus!
