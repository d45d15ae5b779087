//! Reading a document from TOML text.

use vstd::prelude::*;
use crate::environment::Environment;
use crate::error::{Cause, ConfigError, ConfigErrorView};
use crate::overlay::{document_outcome, load_env_variables};
use crate::value::{field_views, TreeView, ValueTree};

verus! {

/// `toml::Value`, the value that the TOML parser builds; nothing of it is
/// seen here but through [`toml_content`].
#[verifier::external_type_specification]
#[verifier::external_body]
pub struct ExTomlValue(toml::Value);

/// `toml::de::Error`, the error of the TOML parser; nothing of it is seen
/// here.
#[verifier::external_type_specification]
#[verifier::external_body]
pub struct ExTomlError(toml::de::Error);

/// What a value of the TOML parser holds: its scalar, the contents of its
/// items in order, or its fields with their contents in ascending order of
/// their keys. A float is given by its bits and a date by the text that its
/// `Display` writes.
pub uninterp spec fn toml_content(value: toml::Value) -> TreeView;

/// The fields of the table that a text denotes as a TOML document, in
/// ascending order of their keys; `None` for a text that is not such a
/// document.
pub uninterp spec fn parsed_document(text: Seq<char>) -> Option<Seq<(Seq<char>, TreeView)>>;

/// The keys of fields with what their values hold, in order.
pub open spec fn field_contents(fields: Seq<(String, toml::Value)>) -> Seq<(Seq<char>, TreeView)> {
    fields.map_values(|field: (String, toml::Value)| (field.0@, toml_content(field.1)))
}

/// A value of the TOML parser, opened by one level.
enum Node {
    String(String),
    Integer(i64),
    Float(u64),
    Boolean(bool),
    Datetime(String),
    Array(Vec<toml::Value>),
    Table(Vec<(String, toml::Value)>),
}

impl Node {
    /// What the opened value holds, given what its items and fields hold.
    spec fn content(self) -> TreeView {
        match self {
            Node::String(text) => TreeView::String(text@),
            Node::Integer(number) => TreeView::Integer(number),
            Node::Float(bits) => TreeView::Float(bits),
            Node::Boolean(flag) => TreeView::Boolean(flag),
            Node::Datetime(text) => TreeView::Datetime(text@),
            Node::Array(items) => TreeView::Array(
                items@.map_values(|item: toml::Value| toml_content(item)),
            ),
            Node::Table(fields) => TreeView::Table(field_contents(fields@)),
        }
    }
}

/// Calls `toml::from_str` for a table, which every TOML document is, and
/// hands out the fields of that table in the order of its map, which is
/// ascending by key. The result is what the text denotes, or the parser's
/// error where it denotes no document. The parser holds every table in a map,
/// so no table of the document has two fields of one key.
#[verifier::external_body]
fn parse_toml(text: &str) -> (parsed: Result<Vec<(String, toml::Value)>, toml::de::Error>)
    ensures
        match parsed {
            Ok(fields) => parsed_document(text@) == Some(field_contents(fields@))
                && TreeView::Table(field_contents(fields@)).well_formed(),
            Err(_) => parsed_document(text@) is None,
        },
{
    toml::from_str::<toml::value::Table>(text).map(|table| table.into_iter().collect())
}

/// Tells the variants of `toml::Value` apart and hands out what the value
/// holds: a scalar as it is, a float by its bits, a date as the text that its
/// `Display` writes, the items of an array in order and the fields of a table
/// in the order of its map, which is ascending by key.
#[verifier::external_body]
fn open_toml(value: toml::Value) -> (node: Node)
    ensures
        node.content() == toml_content(value),
{
    match value {
        toml::Value::String(text) => Node::String(text),
        toml::Value::Integer(number) => Node::Integer(number),
        toml::Value::Float(number) => Node::Float(number.to_bits()),
        toml::Value::Boolean(flag) => Node::Boolean(flag),
        toml::Value::Datetime(date) => Node::Datetime(date.to_string()),
        toml::Value::Array(items) => Node::Array(items),
        toml::Value::Table(table) => Node::Table(table.into_iter().collect()),
    }
}

/// Turns a value of the TOML parser into a [`ValueTree`].
fn import(value: toml::Value) -> (imported: ValueTree)
    ensures
        imported@ == toml_content(value),
    decreases toml_content(value),
{
    match open_toml(value) {
        Node::String(text) => ValueTree::String(text),
        Node::Integer(number) => ValueTree::Integer(number),
        Node::Float(bits) => ValueTree::Float(bits),
        Node::Boolean(flag) => ValueTree::Boolean(flag),
        Node::Datetime(text) => ValueTree::Datetime(text),
        Node::Array(items) => {
            let ghost all = items@;
            let mut imported: Vec<ValueTree> = Vec::new();
            for item in iter: items
                invariant
                    iter.seq() == all,
                    toml_content(value) == TreeView::Array(
                        all.map_values(|item: toml::Value| toml_content(item)),
                    ),
                    imported@.len() == iter.index(),
                    forall|j: int|
                        0 <= j < imported@.len() ==> (#[trigger] imported@[j])@ == toml_content(
                            all[j],
                        ),
            {
                assert(toml_content(value)->Array_0[iter.index()] == toml_content(item));
                let next = import(item);
                imported.push(next);
            }
            let result = ValueTree::Array(imported);
            assert(result@->Array_0 =~= toml_content(value)->Array_0);
            result
        },
        Node::Table(fields) => {
            assert(decreases_to!(toml_content(value) => toml_content(value)->Table_0));
            ValueTree::Table(import_fields(fields))
        },
    }
}

/// Turns the fields of a table of the TOML parser into fields of a
/// [`ValueTree`], in the same order.
fn import_fields(fields: Vec<(String, toml::Value)>) -> (imported: Vec<(String, ValueTree)>)
    ensures
        field_views(imported@) == field_contents(fields@),
    decreases field_contents(fields@),
{
    let ghost all = fields@;
    let mut imported: Vec<(String, ValueTree)> = Vec::new();
    for field in iter: fields
        invariant
            iter.seq() == all,
            imported@.len() == iter.index(),
            forall|j: int|
                0 <= j < imported@.len() ==> (#[trigger] imported@[j]).0@ == all[j].0@
                    && imported@[j].1@ == toml_content(all[j].1),
    {
        assert(decreases_to!(field_contents(all)[iter.index()] => field_contents(all)[iter.index()].1));
        let (key, item) = field;
        let next = import(item);
        imported.push((key, next));
    }
    imported
}

/// Loads a configuration from the text of a TOML document: reads the text,
/// then resolves every placeholder of the document against `env`. A text that
/// is no TOML document fails with the parser's description; a document fails
/// with the report of all the placeholders that cannot be resolved.
pub fn load_config_from_str(config_str: &str, env: &Environment) -> (loaded: Result<
    ValueTree,
    ConfigError,
>)
    ensures
        match parsed_document(config_str@) {
            Some(fields) => match loaded {
                Ok(tree) => document_outcome(fields, env@) == Ok::<TreeView, ConfigErrorView>(
                    tree@,
                ),
                Err(error) => document_outcome(fields, env@) == Err::<TreeView, ConfigErrorView>(
                    error@,
                ),
            },
            None => loaded matches Err(ConfigError::Single(Cause::Parse(_))),
        },
        match loaded {
            Ok(tree) => tree@.well_formed(),
            Err(error) => error@.well_formed(),
        },
{
    match parse_toml(config_str) {
        Ok(parsed) => {
            let fields = import_fields(parsed);
            load_env_variables(&fields, env)
        },
        Err(error) => Err(ConfigError::Single(Cause::Parse(error.to_string()))),
    }
}

} // verus!
