//! The YAML library this crate builds on: its types as the verifier sees
//! them, the names for what its functions return, and the calls into it.

use vstd::prelude::*;
use crate::document::{distinct_string_keys, Document, Tree};
use crate::error::RspError;

verus! {

/// `serde_yaml::Value`, carried as an opaque value.
#[verifier::external_type_specification]
#[verifier::external_body]
pub struct ExValue(serde_yaml::Value);

/// `serde_yaml::Number`, carried as an opaque value.
#[verifier::external_type_specification]
#[verifier::external_body]
pub struct ExNumber(serde_yaml::Number);

/// `serde_yaml::value::TaggedValue`, carried as an opaque value.
#[verifier::external_type_specification]
#[verifier::external_body]
pub struct ExTaggedValue(serde_yaml::value::TaggedValue);

/// `serde_yaml::Error`, carried as an opaque value.
#[verifier::external_type_specification]
#[verifier::external_body]
pub struct ExError(serde_yaml::Error);

/// The tree that a `serde_yaml::Value` holds: its variant, and under it what
/// the variant holds.
pub uninterp spec fn value_tree(value: serde_yaml::Value) -> Tree;

/// The tree of the value that `serde_yaml::from_str` reads from a text, or
/// `None` where it reports an error. The text alone decides.
pub uninterp spec fn parsed_yaml(text: Seq<char>) -> Option<Tree>;

/// The text that `serde_yaml::to_string` writes for a value that holds the
/// given tree, or `None` where it reports an error. The value alone decides.
pub uninterp spec fn yaml_text(tree: Tree) -> Option<Seq<char>>;

/// One level of a `serde_yaml::Value`: its variant, with the fields of that
/// variant as they are.
pub(crate) enum ValueParts {
    Null,
    Bool(bool),
    Number(serde_yaml::Number),
    String(String),
    Sequence(Vec<serde_yaml::Value>),
    Mapping(Vec<(serde_yaml::Value, serde_yaml::Value)>),
    Tagged(serde_yaml::value::TaggedValue),
}

impl ValueParts {
    /// The tree of the value that these parts were taken from.
    pub(crate) open spec fn tree(self) -> Tree {
        match self {
            ValueParts::Null => Tree::Null,
            ValueParts::Bool(b) => Tree::Bool(b),
            ValueParts::Number(n) => Tree::Number(n),
            ValueParts::String(s) => Tree::String(s@),
            ValueParts::Sequence(items) => Tree::Sequence(items@),
            ValueParts::Mapping(pairs) => Tree::Mapping(
                Seq::new(
                    pairs@.len(),
                    |i: int| (value_tree(pairs@[i].0), value_tree(pairs@[i].1)),
                ),
            ),
            ValueParts::Tagged(t) => Tree::Tagged(t),
        }
    }
}

/// Reads a YAML text into a value with `serde_yaml::from_str`. The value
/// that comes back holds the tree that [`parsed_yaml`] names for the text;
/// an error comes back exactly where it names none.
#[verifier::external_body]
pub(crate) fn parse_value(content: &str) -> (result: Result<serde_yaml::Value, serde_yaml::Error>)
    ensures
        match result {
            Ok(value) => parsed_yaml(content@) == Some(value_tree(value)),
            Err(_) => parsed_yaml(content@) is None,
        },
{
    serde_yaml::from_str::<serde_yaml::Value>(content)
}

/// Takes a `serde_yaml::Value` apart by its variant; each field moves as it
/// is. The entries of a `serde_yaml::Mapping` come out of its `into_iter`,
/// that is in the mapping's own order, and as a mapping holds no key twice,
/// no two of them have the same string as their key.
#[verifier::external_body]
pub(crate) fn split_value(value: serde_yaml::Value) -> (parts: ValueParts)
    ensures
        parts.tree() == value_tree(value),
        parts.tree() matches Tree::Mapping(entries) ==> distinct_string_keys(entries),
{
    match value {
        serde_yaml::Value::Null => ValueParts::Null,
        serde_yaml::Value::Bool(b) => ValueParts::Bool(b),
        serde_yaml::Value::Number(n) => ValueParts::Number(n),
        serde_yaml::Value::String(s) => ValueParts::String(s),
        serde_yaml::Value::Sequence(items) => ValueParts::Sequence(items),
        serde_yaml::Value::Mapping(m) => ValueParts::Mapping(m.into_iter().collect()),
        serde_yaml::Value::Tagged(t) => ValueParts::Tagged(*t),
    }
}

/// The `serde_yaml::Value` of a document that is no mapping: the variant of
/// the same name, around a copy of what the document holds. For a mapping,
/// whose entries would have to be built first, `None`.
#[verifier::external_body]
pub(crate) fn leaf_value(doc: &Document) -> (value: Option<serde_yaml::Value>)
    ensures
        value is None <==> doc is Mapping,
        value matches Some(v) ==> value_tree(v) == doc@,
{
    match doc {
        Document::Null => Some(serde_yaml::Value::Null),
        Document::Bool(b) => Some(serde_yaml::Value::Bool(*b)),
        Document::Number(n) => Some(serde_yaml::Value::Number(n.clone())),
        Document::String(s) => Some(serde_yaml::Value::String(s.clone())),
        Document::Sequence(items) => Some(serde_yaml::Value::Sequence(items.clone())),
        Document::Mapping(_) => None,
        Document::Tagged(t) => Some(serde_yaml::Value::Tagged(Box::new(t.clone()))),
    }
}

/// Writes a value as YAML text with `serde_yaml::to_string`. The text that
/// comes back is the one that [`yaml_text`] names for the tree of the value;
/// an error comes back exactly where it names none.
#[verifier::external_body]
pub(crate) fn write_value(value: &serde_yaml::Value) -> (result: Result<String, serde_yaml::Error>)
    ensures
        match result {
            Ok(text) => yaml_text(value_tree(*value)) == Some(text@),
            Err(_) => yaml_text(value_tree(*value)) is None,
        },
{
    serde_yaml::to_string(value)
}

impl Document {
    /// Reads a document from YAML text. Fails exactly where the text is not
    /// YAML.
    pub fn parse(content: &str) -> (result: Result<Document, RspError>)
        ensures
            match result {
                Ok(doc) => parsed_yaml(content@) == Some(doc@) && doc@.well_formed(),
                Err(error) => parsed_yaml(content@) is None && error is Yaml,
            },
    {
        match parse_value(content) {
            Ok(value) => Ok(Document::from_value(value)),
            Err(error) => Err(RspError::Yaml(error)),
        }
    }

    /// The document that a `serde_yaml::Value` holds.
    pub fn from_value(value: serde_yaml::Value) -> (doc: Document)
        ensures
            doc@ == value_tree(value),
            doc@.well_formed(),
        decreases value_tree(value),
    {
        match split_value(value) {
            ValueParts::Null => Document::Null,
            ValueParts::Bool(b) => Document::Bool(b),
            ValueParts::Number(n) => Document::Number(n),
            ValueParts::String(s) => Document::String(s),
            ValueParts::Sequence(items) => Document::Sequence(items),
            ValueParts::Mapping(pairs) => {
                let ghost all = pairs@;
                let mut entries: Vec<(Document, Document)> = Vec::new();
                for pair in it: pairs
                    invariant
                        it.seq() == all,
                        value_tree(value) == Tree::Mapping(
                            Seq::new(
                                all.len(),
                                |i: int| (value_tree(all[i].0), value_tree(all[i].1)),
                            ),
                        ),
                        entries@.len() == it.index(),
                        forall|j: int|
                            0 <= j < entries@.len() ==> entries@[j].0@ == value_tree(all[j].0)
                                && entries@[j].1@ == value_tree(all[j].1),
                        forall|j: int|
                            0 <= j < entries@.len() ==> (#[trigger] entries@[j]).0@.well_formed()
                                && entries@[j].1@.well_formed(),
                {
                    proof {
                        let ghost i = it.index() as int;
                        let ghost s = value_tree(value)->Mapping_0;
                        assert(pair == all[i]);
                        assert(s[i] == (value_tree(pair.0), value_tree(pair.1)));
                        assert(decreases_to!(value_tree(value) => s));
                        assert(decreases_to!(s => s[i]));
                        assert(decreases_to!(s[i] => s[i].0));
                        assert(decreases_to!(s[i] => s[i].1));
                    }
                    let key = Document::from_value(pair.0);
                    let val = Document::from_value(pair.1);
                    entries.push((key, val));
                }
                let doc = Document::Mapping(entries);
                assert(doc@->Mapping_0 =~= value_tree(value)->Mapping_0);
                doc
            },
            ValueParts::Tagged(t) => Document::Tagged(t),
        }
    }
}

} // verus!
