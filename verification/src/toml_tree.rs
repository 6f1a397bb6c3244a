//! TOML documents, as far as the tool reads them.
//!
//! The documents themselves are parsed and held by the `toml` crate. Contracts
//! speak of a value through [`toml_tree`], the tree of tables, lists and
//! strings that it holds.

use vstd::prelude::*;

verus! {

/// What a TOML value holds. Numbers, booleans and dates are told apart by
/// nothing here: no rule of the tool reads one.
pub enum TomlTree {
    Text(Seq<char>),
    List(Seq<TomlTree>),
    Table(Map<Seq<char>, TomlTree>),
    Other,
}

/// `toml::Value`: a TOML value of any kind.
#[verifier::external_type_specification]
#[verifier::external_body]
pub struct ExValue(toml::Value);

/// What a `toml::Value` holds.
pub uninterp spec fn toml_tree(value: toml::Value) -> TomlTree;

/// What `toml::from_str` makes of a document: its root table, or the text of
/// the error.
pub uninterp spec fn toml_document(text: Seq<char>) -> Result<TomlTree, Seq<char>>;

/// The trees of a list of values.
pub open spec fn toml_trees(values: Seq<toml::Value>) -> Seq<TomlTree> {
    values.map_values(|value: toml::Value| toml_tree(value))
}

/// The entry of a table under a key; nothing where the value is no table.
pub open spec fn entry(tree: TomlTree, key: Seq<char>) -> Option<TomlTree> {
    match tree {
        TomlTree::Table(entries) => if entries.contains_key(key) {
            Some(entries[key])
        } else {
            None
        },
        _ => None,
    }
}

/// Calls `toml::from_str` for a `toml::Value`. The outcome depends on the text
/// alone; an error is handed on as the text that it displays.
#[verifier::external_body]
pub(crate) fn parse_toml(text: &str) -> (parsed: Result<toml::Value, String>)
    ensures
        match parsed {
            Ok(value) => toml_document(text@) == Ok::<TomlTree, Seq<char>>(toml_tree(value)),
            Err(message) => toml_document(text@) == Err::<TomlTree, Seq<char>>(message@),
        },
{
    toml::from_str::<toml::Value>(text).map_err(|error| error.to_string())
}

/// Calls `toml::Value::get` with a string index: the entry of a table under
/// that key, and nothing for a missing key or for a value that is no table.
#[verifier::external_body]
pub(crate) fn toml_get<'a>(value: &'a toml::Value, key: &str) -> (found: Option<&'a toml::Value>)
    ensures
        match found {
            Some(inner) => entry(toml_tree(*value), key@) == Some(toml_tree(*inner)),
            None => entry(toml_tree(*value), key@) is None,
        },
{
    value.get(key)
}

/// `toml::Value::as_array`: the elements of a list, in order; nothing for any
/// other value.
pub assume_specification[ toml::Value::as_array ](value: &toml::Value) -> (elements: Option<
    &Vec<toml::Value>,
>)
    ensures
        match elements {
            Some(values) => toml_tree(*value) == TomlTree::List(toml_trees(values@)),
            None => !(toml_tree(*value) is List),
        },
;

/// `toml::Value::as_str`: the characters of a string; nothing for any other
/// value.
pub assume_specification[ toml::Value::as_str ](value: &toml::Value) -> (text: Option<&str>)
    ensures
        match text {
            Some(chars) => toml_tree(*value) == TomlTree::Text(chars@),
            None => !(toml_tree(*value) is Text),
        },
;

/// `<toml::Value as Clone>::clone`: the copy holds what the original holds.
pub assume_specification[ <toml::Value as Clone>::clone ](value: &toml::Value) -> (copy: toml::Value)
    ensures
        toml_tree(copy) == toml_tree(*value),
;

} // verus!
