//! Reading TOML text into a document tree, by way of `toml`.

use vstd::prelude::*;
use crate::document::{DocValue, Node};
use crate::error::LockError;

verus! {

/// `toml::Value`, a parsed TOML value, carried as an opaque value.
#[verifier::external_type_specification]
#[verifier::external_body]
pub struct ExTomlValue(toml::Value);

/// `toml::de::Error`, which is only ever told apart from success.
#[verifier::external_type_specification]
#[verifier::external_body]
pub struct ExTomlError(toml::de::Error);

/// The document that `toml::from_str` reads out of `text` as a `toml::Value`;
/// `None` where it reports an error instead.
pub uninterp spec fn toml_document(text: Seq<char>) -> Option<DocValue>;

/// What a `toml::Value` holds, as a document value.
pub uninterp spec fn toml_value(value: toml::Value) -> DocValue;

/// Calls `toml::from_str` for a `toml::Value`. Nothing is claimed of the
/// grammar: the contract only gives the outcome its name, success and failure
/// alike.
#[verifier::external_body]
fn read_value(text: &str) -> (outcome: Result<toml::Value, toml::de::Error>)
    ensures
        match outcome {
            Ok(value) => toml_document(text@) == Some(toml_value(value)),
            Err(_) => toml_document(text@) is None,
        },
{
    toml::from_str::<toml::Value>(text)
}

/// Copies a `toml::Value` into a [`Node`], variant by variant and item by
/// item; of an integer or a float only the kind is kept, and so of a date.
/// The contract names what the value holds as exactly what the copy stands
/// for.
#[verifier::external_body]
fn node_of_value(value: &toml::Value) -> (node: Node)
    ensures
        node@ == toml_value(*value),
{
    match value {
        toml::Value::String(s) => Node::Text(s.clone()),
        toml::Value::Integer(_) => Node::Number,
        toml::Value::Float(_) => Node::Number,
        toml::Value::Boolean(b) => Node::Bool(*b),
        toml::Value::Datetime(_) => Node::Datetime,
        toml::Value::Array(items) => Node::List(items.iter().map(node_of_value).collect()),
        toml::Value::Table(members) => Node::Table(
            members.iter().map(|(key, item)| (key.clone(), node_of_value(item))).collect(),
        ),
    }
}

/// Reads `text` as a TOML document.
pub fn parse_toml(text: &str) -> (outcome: Result<Node, LockError>)
    ensures
        match outcome {
            Ok(node) => toml_document(text@) == Some(node@),
            Err(e) => e == LockError::Syntax && toml_document(text@) is None,
        },
{
    match read_value(text) {
        Ok(value) => Ok(node_of_value(&value)),
        Err(_) => Err(LockError::Syntax),
    }
}

} // verus!
