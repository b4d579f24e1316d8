//! Reading TOML and JSON text into a flat configuration document.
//!
//! The outside parsers produce a value tree; it is moved node for node
//! into the library's own [`JTree`] and flattened by the verified
//! [`flatten`].  The parsed tree is a function of the text alone, which
//! the two named results below record; everything after the parse is
//! verified code.

use vstd::prelude::*;

verus! {

use crate::tree::{JTree, JTreeS, flatten, flatten_spec};
use crate::value::{Leaf, LeafS, ResolvedConfig};

#[verifier::external_type_specification]
#[verifier::external_body]
pub struct ExValue(serde_json::Value);

#[verifier::external_type_specification]
#[verifier::external_body]
pub struct ExNumber(serde_json::Number);

/// The tree held by a JSON text, if the text parses.
pub uninterp spec fn json_tree_of(s: Seq<char>) -> Option<JTreeS>;

/// The tree held by a TOML text, if the text parses.
pub uninterp spec fn toml_tree_of(s: Seq<char>) -> Option<JTreeS>;

/// Relies on `serde_json::Number::as_i64` and its rendering: an integer in
/// range becomes an integer leaf, any other number the canonical rendering
/// of its value.
#[verifier::external_body]
fn num_leaf(n: serde_json::Number) -> (r: Leaf)
    ensures
        r is Int || r is Float,
{
    match n.as_i64() {
        Some(i) => Leaf::Int(i),
        None => Leaf::Float(n.to_string()),
    }
}

/// Relies on `serde_json::Value`'s variants: moves each node into the
/// library's tree, one arm per variant, fields carried over unchanged.
#[verifier::external_body]
fn tree_of_value(v: serde_json::Value) -> (r: JTree)
    ensures
        r is Scalar || r is Arr || r is Obj,
{
    match v {
        serde_json::Value::Null => JTree::Scalar(Leaf::Null),
        serde_json::Value::Bool(b) => JTree::Scalar(Leaf::Bool(b)),
        serde_json::Value::Number(n) => JTree::Scalar(num_leaf(n)),
        serde_json::Value::String(s) => JTree::Scalar(Leaf::Str(s)),
        serde_json::Value::Array(a) => JTree::Arr(a.into_iter().map(tree_of_value).collect()),
        serde_json::Value::Object(m) => JTree::Obj(
            m.into_iter().map(|(k, x)| (k, tree_of_value(x))).collect(),
        ),
    }
}

/// Relies on `serde_json::from_str`: whether the text is valid JSON, and
/// the parsed tree, depend on the text alone.
#[verifier::external_body]
fn parse_json_tree(text: &str) -> (r: Option<JTree>)
    ensures
        match r {
            Some(t) => json_tree_of(text@) == Some(t@),
            None => json_tree_of(text@) is None,
        },
{
    serde_json::from_str(text).ok().map(tree_of_value)
}

/// Relies on `toml::from_str`, deserializing into `serde_json::Value`:
/// whether the text is valid TOML, and the parsed tree, depend on the
/// text alone.
#[verifier::external_body]
fn parse_toml_tree(text: &str) -> (r: Option<JTree>)
    ensures
        match r {
            Some(t) => toml_tree_of(text@) == Some(t@),
            None => toml_tree_of(text@) is None,
        },
{
    toml::from_str::<serde_json::Value>(text).ok().map(tree_of_value)
}

/// The flattened document held by a JSON text, if the text parses.
pub open spec fn json_entries_of(s: Seq<char>) -> Option<Seq<(Seq<char>, LeafS)>> {
    match json_tree_of(s) {
        Some(t) => Some(flatten_spec(Seq::empty(), t)),
        None => None,
    }
}

/// The flattened document held by a TOML text, if the text parses.
pub open spec fn toml_entries_of(s: Seq<char>) -> Option<Seq<(Seq<char>, LeafS)>> {
    match toml_tree_of(s) {
        Some(t) => Some(flatten_spec(Seq::empty(), t)),
        None => None,
    }
}

/// Parse a JSON text and flatten it to dot-path entries.
pub(crate) fn parse_json_flat(text: &str) -> (r: Option<ResolvedConfig>)
    ensures
        match r {
            Some(d) => json_entries_of(text@) == Some(d@),
            None => json_entries_of(text@) is None,
        },
{
    match parse_json_tree(text) {
        Some(t) => Some(flatten(&t)),
        None => None,
    }
}

/// Parse a TOML text and flatten it to dot-path entries.
pub(crate) fn parse_toml_flat(text: &str) -> (r: Option<ResolvedConfig>)
    ensures
        match r {
            Some(d) => toml_entries_of(text@) == Some(d@),
            None => toml_entries_of(text@) is None,
        },
{
    match parse_toml_tree(text) {
        Some(t) => Some(flatten(&t)),
        None => None,
    }
}

} // verus!
