//! Reading JSON text into a document tree, by way of `serde_json`.

use vstd::prelude::*;
use crate::document::{DocValue, Node};
use crate::error::LockError;

verus! {

/// `serde_json::Value`, a parsed JSON value, carried as an opaque value.
#[verifier::external_type_specification]
#[verifier::external_body]
pub struct ExJsonValue(serde_json::Value);

/// `serde_json::Error`, which is only ever told apart from success.
#[verifier::external_type_specification]
#[verifier::external_body]
pub struct ExJsonError(serde_json::Error);

/// The document that `serde_json::from_str` reads out of `text` as a
/// `serde_json::Value`; `None` where it reports an error instead.
pub uninterp spec fn json_document(text: Seq<char>) -> Option<DocValue>;

/// What a `serde_json::Value` holds, as a document value.
pub uninterp spec fn json_value(value: serde_json::Value) -> DocValue;

/// Calls `serde_json::from_str` for a `serde_json::Value`. Nothing is claimed
/// of the grammar: the contract only gives the outcome its name, success and
/// failure alike.
#[verifier::external_body]
fn read_value(text: &str) -> (outcome: Result<serde_json::Value, serde_json::Error>)
    ensures
        match outcome {
            Ok(value) => json_document(text@) == Some(json_value(value)),
            Err(_) => json_document(text@) is None,
        },
{
    serde_json::from_str::<serde_json::Value>(text)
}

/// Copies a `serde_json::Value` into a [`Node`], variant by variant and item
/// by item; of a number only its kind is kept. The contract names what the
/// value holds as exactly what the copy stands for.
#[verifier::external_body]
fn node_of_value(value: &serde_json::Value) -> (node: Node)
    ensures
        node@ == json_value(*value),
{
    match value {
        serde_json::Value::Null => Node::Null,
        serde_json::Value::Bool(b) => Node::Bool(*b),
        serde_json::Value::Number(_) => Node::Number,
        serde_json::Value::String(s) => Node::Text(s.clone()),
        serde_json::Value::Array(items) => Node::List(items.iter().map(node_of_value).collect()),
        serde_json::Value::Object(members) => Node::Table(
            members.iter().map(|(key, item)| (key.clone(), node_of_value(item))).collect(),
        ),
    }
}

/// Reads `text` as a JSON document.
pub fn parse_json(text: &str) -> (outcome: Result<Node, LockError>)
    ensures
        match outcome {
            Ok(node) => json_document(text@) == Some(node@),
            Err(e) => e == LockError::Syntax && json_document(text@) is None,
        },
{
    match read_value(text) {
        Ok(value) => Ok(node_of_value(&value)),
        Err(_) => Err(LockError::Syntax),
    }
}

} // verus!
