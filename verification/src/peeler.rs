//! The peeler: decoding escaped text, choosing the entries to decode,
//! walking a document and writing it out again.

use vstd::prelude::*;
use crate::document::{
    entries_view, find_key, key_index, lemma_mapping_view, lookup, Document, Tree,
};
use crate::error::RspError;
use crate::laws::lemma_peel_keeps_well_formed;
use crate::render::{behind, entry_text, rendered, rendered_from};
use crate::text::{
    chars_of, contains_char, has_suffix, indentation, is_peelable_key, push_block, push_char,
    push_inline_scalar, push_str, push_trimmed_end, same_text, trimmed_end, unescaped,
};
use crate::yaml::{leaf_value, parsed_yaml, write_value};

verus! {

/// Peels escaped text blocks out of configuration documents. It holds no
/// state: every call stands for itself.
pub struct Peeler;

impl Default for Peeler {
    fn default() -> (peeler: Self)
        ensures
            peeler == Peeler,
    {
        Peeler::new()
    }
}

/// An entry of the `data` mapping after peeling: where the key is a string
/// that names an embedded document and the value is a string, the value is
/// decoded; every other entry is as it was.
pub open spec fn peeled_entry(entry: (Tree, Tree)) -> (Tree, Tree) {
    match entry {
        (Tree::String(key), Tree::String(value)) => if is_peelable_key(key) {
            (entry.0, Tree::String(unescaped(value)))
        } else {
            entry
        },
        _ => entry,
    }
}

/// The entries of the `data` mapping after peeling, each in its place.
pub open spec fn peeled_data(entries: Seq<(Tree, Tree)>) -> Seq<(Tree, Tree)> {
    Seq::new(entries.len(), |i: int| peeled_entry(entries[i]))
}

/// Whether the entries of a root mapping say `kind: ConfigMap`.
pub open spec fn is_config_map(entries: Seq<(Tree, Tree)>) -> bool {
    lookup(entries, "kind"@) == Some(Tree::String("ConfigMap"@))
}

/// The entries of a root mapping after peeling. Only a root that says
/// `kind: ConfigMap` and holds a mapping under `data` changes, and of it
/// only that mapping.
pub open spec fn peeled_root(entries: Seq<(Tree, Tree)>) -> Seq<(Tree, Tree)> {
    let at = key_index(entries, "data"@) as int;
    if is_config_map(entries) && at < entries.len() {
        match entries[at].1 {
            Tree::Mapping(data) => entries.update(
                at,
                (entries[at].0, Tree::Mapping(peeled_data(data))),
            ),
            _ => entries,
        }
    } else {
        entries
    }
}

/// A document after peeling. Only a mapping changes.
pub open spec fn peeled(tree: Tree) -> Tree {
    match tree {
        Tree::Mapping(entries) => Tree::Mapping(peeled_root(entries)),
        _ => tree,
    }
}

impl Peeler {
    /// A peeler.
    pub fn new() -> (peeler: Self)
        ensures
            peeler == Peeler,
    {
        Peeler
    }

    /// Reads a document from `content`, peels it and returns its text.
    ///
    /// Fails with `Yaml` where `content` is not YAML, with `InvalidFormat`
    /// where its root is no mapping, and with `Yaml` where one of its values
    /// cannot be written.
    pub fn peel_content(&self, content: &str) -> (result: Result<String, RspError>)
        ensures
            match result {
                Ok(text) => {
                    &&& parsed_yaml(content@) matches Some(tree)
                    &&& tree is Mapping
                    &&& rendered(peeled(tree), 0) == Some(text@)
                },
                Err(error) => match parsed_yaml(content@) {
                    None => error is Yaml,
                    Some(tree) => if tree is Mapping {
                        rendered(peeled(tree), 0) is None && error is Yaml
                    } else {
                        &&& error matches RspError::InvalidFormat(message)
                        &&& message@ == "Expected YAML mapping at root level"@
                    },
                },
            },
    {
        let mut yaml_value = match Document::parse(content) {
            Ok(document) => document,
            Err(error) => {
                return Err(error);
            },
        };
        match self.process_yaml_value(&mut yaml_value) {
            Ok(_) => {},
            Err(error) => {
                return Err(error);
            },
        }
        self.serialize_yaml_with_pipes(&yaml_value)
    }

    /// Peels a document in place. The root has to be a mapping: any other
    /// root is refused and left as it is.
    pub fn process_yaml_value(&self, value: &mut Document) -> (result: Result<(), RspError>)
        ensures
            match result {
                Ok(_) => {
                    &&& old(value)@ is Mapping
                    &&& final(value)@ == peeled(old(value)@)
                    &&& old(value)@.well_formed() ==> final(value)@.well_formed()
                },
                Err(error) => {
                    &&& !(old(value)@ is Mapping)
                    &&& *final(value) == *old(value)
                    &&& error matches RspError::InvalidFormat(message)
                    &&& message@ == "Expected YAML mapping at root level"@
                },
            },
    {
        match value {
            Document::Mapping(map) => {
                proof {
                    lemma_mapping_view(*map);
                }
                let _ = self.process_configmap(map);
                proof {
                    lemma_mapping_view(*map);
                    if old(value)@.well_formed() {
                        lemma_peel_keeps_well_formed(old(value)@);
                    }
                }
                Ok(())
            },
            _ => Err(RspError::InvalidFormat("Expected YAML mapping at root level".to_owned())),
        }
    }

    /// Peels the entries of a root mapping in place.
    fn process_configmap(&self, map: &mut Vec<(Document, Document)>) -> (result: Result<
        (),
        RspError,
    >)
        ensures
            result is Ok,
            entries_view(final(map)@) == peeled_root(entries_view(old(map)@)),
    {
        let kind_at = find_key(map, "kind");
        if kind_at < map.len() {
            let says_config_map = match &map[kind_at].1 {
                Document::String(kind) => same_text(kind.as_str(), "ConfigMap"),
                _ => false,
            };
            if says_config_map {
                let data_at = find_key(map, "data");
                if data_at < map.len() {
                    match &mut map[data_at].1 {
                        Document::Mapping(data_map) => {
                            proof {
                                lemma_mapping_view(*data_map);
                            }
                            let _ = self.process_data_section(data_map);
                            proof {
                                lemma_mapping_view(*data_map);
                            }
                        },
                        _ => {},
                    }
                    assert(entries_view(map@) =~= peeled_root(entries_view(old(map)@)));
                }
            }
        }
        Ok(())
    }

    /// Peels the entries of the `data` mapping in place.
    fn process_data_section(&self, data_map: &mut Vec<(Document, Document)>) -> (result: Result<
        (),
        RspError,
    >)
        ensures
            result is Ok,
            entries_view(final(data_map)@) == peeled_data(entries_view(old(data_map)@)),
    {
        let mut i: usize = 0;
        while i < data_map.len()
            invariant
                i <= data_map.len(),
                data_map.len() == old(data_map).len(),
                forall|j: int|
                    0 <= j < i ==> (#[trigger] data_map@[j].0@, data_map@[j].1@) == peeled_entry(
                        entries_view(old(data_map)@)[j],
                    ),
                forall|j: int| i <= j < data_map.len() ==> data_map@[j] == old(data_map)@[j],
            decreases data_map.len() - i,
        {
            let processed: Option<String> = match &data_map[i] {
                (Document::String(key), Document::String(raw)) => {
                    if self.should_process_key(key.as_str()) {
                        match self.process_raw_string(raw.as_str()) {
                            Ok(text) => Some(text),
                            Err(_) => None,
                        }
                    } else {
                        None
                    }
                },
                _ => None,
            };
            match processed {
                Some(text) => {
                    data_map[i].1 = Document::String(text);
                },
                None => {},
            }
            i += 1;
        }
        assert(entries_view(data_map@) =~= peeled_data(entries_view(old(data_map)@)));
        Ok(())
    }

    /// Whether the value stored under `key` is one to decode: whether `key`
    /// ends in `.yaml`, `.yml`, `.json` or `.toml`.
    pub fn should_process_key(&self, key: &str) -> (eligible: bool)
        ensures
            eligible == is_peelable_key(key@),
    {
        let name = chars_of(key);
        has_suffix(&name, ".yaml") || has_suffix(&name, ".yml") || has_suffix(&name, ".json")
            || has_suffix(&name, ".toml")
    }

    /// Decodes one raw value.
    pub fn process_raw_string(&self, raw_string: &str) -> (result: Result<String, RspError>)
        ensures
            result is Ok,
            result->Ok_0@ == unescaped(raw_string@),
    {
        self.unescape_string(raw_string)
    }

    /// Decodes the escapes of `escaped`. Every text decodes: the result is
    /// always `Ok`.
    pub fn unescape_string(&self, escaped: &str) -> (result: Result<String, RspError>)
        ensures
            result is Ok,
            result->Ok_0@ == unescaped(escaped@),
    {
        let chars = chars_of(escaped);
        let mut out = String::new();
        let mut i: usize = 0;
        assert(chars@.skip(0) == chars@);
        assert(out@ + unescaped(chars@) == unescaped(chars@));
        while i < chars.len()
            invariant
                i <= chars.len(),
                unescaped(chars@) == out@ + unescaped(chars@.skip(i as int)),
            decreases chars.len() - i,
        {
            let ghost rest = chars@.skip(i as int);
            let ch = chars[i];
            if ch != '\\' {
                push_char(&mut out, ch);
                i += 1;
                assert(rest.skip(1) == chars@.skip(i as int));
            } else if i + 1 == chars.len() {
                push_char(&mut out, '\\');
                i += 1;
                assert(rest.len() == 1);
                assert(chars@.skip(i as int).len() == 0);
            } else {
                let next = chars[i + 1];
                assert(rest[1] == next);
                if next == 'n' {
                    push_char(&mut out, '\n');
                } else if next == 't' {
                    push_char(&mut out, '\t');
                } else if next == 'r' {
                    push_char(&mut out, '\r');
                } else if next == '\\' {
                    push_char(&mut out, '\\');
                } else if next == '"' {
                    push_char(&mut out, '"');
                } else {
                    push_char(&mut out, '\\');
                    push_char(&mut out, next);
                }
                i += 2;
                assert(rest.skip(2) == chars@.skip(i as int));
            }
        }
        Ok(out)
    }
    /// The text of a document: its mappings laid out entry by entry, the
    /// decoded blocks under `|`. Fails where the YAML library cannot write
    /// one of the values that are left to it.
    pub fn serialize_yaml_with_pipes(&self, value: &Document) -> (result: Result<String, RspError>)
        ensures
            match result {
                Ok(text) => rendered(value@, 0) == Some(text@),
                Err(error) => rendered(value@, 0) is None && error is Yaml,
            },
    {
        let mut output = String::new();
        let indent = String::new();
        assert(indent@ == indentation(0));
        match self.serialize_value(value, &mut output, indent.as_str(), Ghost(0)) {
            Ok(_) => {
                assert(output@ == rendered(value@, 0)->Some_0);
                Ok(output)
            },
            Err(error) => Err(error),
        }
    }

    /// Appends the text of `value` to `output`. `indent` is the indentation
    /// of the level at which `value` stands.
    fn serialize_value(
        &self,
        value: &Document,
        output: &mut String,
        indent: &str,
        Ghost(level): Ghost<nat>,
    ) -> (result: Result<(), RspError>)
        requires
            indent@ == indentation(level),
        ensures
            match result {
                Ok(_) => rendered(value@, level) is Some && final(output)@ == old(output)@
                    + rendered(value@, level)->Some_0,
                Err(error) => rendered(value@, level) is None && error is Yaml,
            },
        decreases value,
    {
        match value {
            Document::Mapping(map) => {
                let ghost entries = entries_view(map@);
                proof {
                    lemma_mapping_view(*map);
                }
                let mut deeper = indent.to_owned();
                self.write_indent(&mut deeper, 1);
                assert(deeper@ == indentation(level + 1));
                let ghost mut written = Seq::<char>::empty();
                let mut i: usize = 0;
                assert(output@ == old(output)@ + written);
                assert(rendered_from(entries, 0, level) == behind(
                    written,
                    rendered_from(entries, 0, level),
                )) by {
                    if rendered_from(entries, 0, level) is Some {
                        assert(written + rendered_from(entries, 0, level)->Some_0
                            == rendered_from(entries, 0, level)->Some_0);
                    }
                }
                while i < map.len()
                    invariant
                        i <= map.len(),
                        entries == entries_view(map@),
                        indent@ == indentation(level),
                        deeper@ == indentation(level + 1),
                        output@ == old(output)@ + written,
                        rendered_from(entries, 0, level) == behind(
                            written,
                            rendered_from(entries, i as nat, level),
                        ),
                        value == Document::Mapping(*map),
                        value@ == Tree::Mapping(entries),
                    decreases map.len() - i,
                {
                    let ghost before = output@;
                    let ghost entry = entries[i as int];
                    let ghost nested = rendered(entry.1, level + 1);
                    let ghost rest = rendered_from(entries, (i + 1) as nat, level);
                    assert(rendered_from(entries, i as nat, level) == match entry_text(
                        entry.0,
                        entry.1,
                        nested,
                        level,
                    ) {
                        Some(first) => behind(first, rest),
                        None => None,
                    });
                    match &map[i].0 {
                        Document::String(key_str) => {
                            push_str(output, indent);
                            push_str(output, key_str.as_str());
                            push_char(output, ':');
                            match &map[i].1 {
                                Document::String(string_val) => {
                                    let chars = chars_of(string_val.as_str());
                                    if self.should_process_key(key_str.as_str()) && contains_char(
                                        &chars,
                                        '\n',
                                    ) {
                                        push_char(output, ' ');
                                        push_char(output, '|');
                                        push_char(output, '\n');
                                        push_block(output, &chars, deeper.as_str());
                                    } else {
                                        push_char(output, ' ');
                                        push_inline_scalar(output, string_val.as_str());
                                        push_char(output, '\n');
                                    }
                                },
                                other => {
                                    push_char(output, '\n');
                                    match self.serialize_value(
                                        other,
                                        output,
                                        deeper.as_str(),
                                        Ghost(level + 1),
                                    ) {
                                        Ok(_) => {},
                                        Err(error) => {
                                            assert(nested is None);
                                            assert(entry.0 is String && !(entry.1 is String));
                                            assert(entry_text(entry.0, entry.1, nested, level)
                                                is None);
                                            assert(rendered_from(entries, 0, level) is None);
                                            return Err(error);
                                        },
                                    }
                                },
                            }
                        },
                        _ => {},
                    }
                    proof {
                        let first = entry_text(entry.0, entry.1, nested, level)->Some_0;
                        assert(entry_text(entry.0, entry.1, nested, level) is Some);
                        assert(output@ == before + first);
                        if rest is Some {
                            assert((written + first) + rest->Some_0 == written + (first
                                + rest->Some_0));
                        }
                        written = written + first;
                        assert(output@ == old(output)@ + written);
                    }
                    i += 1;
                }
                assert(written + Seq::<char>::empty() == written);
                Ok(())
            },
            Document::String(s) => {
                push_inline_scalar(output, s.as_str());
                Ok(())
            },
            _ => {
                // what is no mapping always has a value of the YAML library
                match leaf_value(value) {
                    Some(yaml) => match write_value(&yaml) {
                        Ok(serialized) => {
                            push_trimmed_end(output, serialized.as_str());
                            push_char(output, '\n');
                            assert(output@ == old(output)@ + (trimmed_end(serialized@) + seq![
                                '\n',
                            ]));
                            Ok(())
                        },
                        Err(error) => Err(RspError::Yaml(error)),
                    },
                    None => Ok(()),
                }
            },
        }
    }

    /// Appends `indent` levels of indentation to `output`.
    pub fn write_indent(&self, output: &mut String, indent: usize)
        ensures
            final(output)@ == old(output)@ + indentation(indent as nat),
    {
        let mut i: usize = 0;
        assert(output@ == old(output)@ + indentation(0));
        while i < indent
            invariant
                i <= indent,
                output@ == old(output)@ + indentation(i as nat),
            decreases indent - i,
        {
            push_char(output, ' ');
            push_char(output, ' ');
            i += 1;
            assert(indentation(i as nat) == indentation((i - 1) as nat) + seq![' ', ' ']);
        }
    }
}

} // verus!
