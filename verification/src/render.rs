//! How a document is laid out as text.

use vstd::prelude::*;
use crate::document::Tree;
use crate::text::{
    indentation, inline_scalar, is_peelable_key, lines, prefixed_lines, trimmed_end,
};
use crate::yaml::yaml_text;

verus! {

/// The text of a value that is neither a string nor a mapping: what the YAML
/// library writes for it, without the whitespace at its end and closed by one
/// newline. `None` where the library reports an error.
pub open spec fn generic_text(tree: Tree) -> Option<Seq<char>> {
    match yaml_text(tree) {
        Some(raw) => Some(trimmed_end(raw) + seq!['\n']),
        None => None,
    }
}

/// The text of one entry of a mapping at the given level of indentation.
/// `nested` is the text of the value one level deeper.
///
/// - An entry whose key is no string has no text.
/// - A string that holds a newline, under a key that names an embedded
///   document, is a block: `key: |`, then its lines one level deeper.
/// - Any other string stands behind `key: ` on the same line.
/// - Any other value follows on the lines below `key:`.
pub open spec fn entry_text(key: Tree, value: Tree, nested: Option<Seq<char>>, level: nat) -> Option<
    Seq<char>,
> {
    match key {
        Tree::String(name) => match value {
            Tree::String(text) => if is_peelable_key(name) && text.contains('\n') {
                Some(
                    indentation(level) + name + seq![':', ' ', '|', '\n'] + prefixed_lines(
                        lines(text),
                        indentation(level + 1),
                    ),
                )
            } else {
                Some(indentation(level) + name + seq![':', ' '] + inline_scalar(text) + seq!['\n'])
            },
            _ => match nested {
                Some(below) => Some(indentation(level) + name + seq![':', '\n'] + below),
                None => None,
            },
        },
        _ => Some(Seq::empty()),
    }
}

/// The text of a document at the given level of indentation, or `None` where
/// one of its values cannot be written.
pub open spec fn rendered(tree: Tree, level: nat) -> Option<Seq<char>>
    decreases tree, 0nat,
{
    match tree {
        Tree::Mapping(entries) => rendered_from(entries, 0, level),
        Tree::String(text) => Some(inline_scalar(text)),
        _ => generic_text(tree),
    }
}

/// The text of the entries from position `from` on, in their order.
pub open spec fn rendered_from(entries: Seq<(Tree, Tree)>, from: nat, level: nat) -> Option<
    Seq<char>,
>
    decreases entries, entries.len() - from,
{
    if from >= entries.len() {
        Some(Seq::empty())
    } else {
        let entry = entries[from as int];
        match entry_text(entry.0, entry.1, rendered(entry.1, level + 1), level) {
            Some(first) => match rendered_from(entries, from + 1, level) {
                Some(rest) => Some(first + rest),
                None => None,
            },
            None => None,
        }
    }
}

/// `text` behind `written`, where there is a text.
pub open spec fn behind(written: Seq<char>, text: Option<Seq<char>>) -> Option<Seq<char>> {
    match text {
        Some(rest) => Some(written + rest),
        None => None,
    }
}

} // verus!
