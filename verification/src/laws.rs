//! What holds of decoding, peeling and rendering for every input.

use vstd::prelude::*;
use crate::document::{distinct_string_keys, key_index, lookup, Tree};
use crate::peeler::{is_config_map, peeled, peeled_data, peeled_entry, peeled_root};
use crate::render::entry_text;
use crate::text::{
    escape_pair, escape_value, indentation, inline_scalar, is_escape_letter, is_peelable_key,
    needs_quotes, unescaped,
};

verus! {

/// A text without a backslash decodes to itself.
pub proof fn lemma_unescape_without_backslash(s: Seq<char>)
    requires
        !s.contains('\\'),
    ensures
        unescaped(s) == s,
    decreases s.len(),
{
    if s.len() > 0 {
        assert(s.contains(s[0]));
        assert forall|c: char| s.skip(1).contains(c) implies s.contains(c) by {
            let i = choose|i: int| 0 <= i < s.skip(1).len() && s.skip(1)[i] == c;
            assert(s[i + 1] == c);
        }
        lemma_unescape_without_backslash(s.skip(1));
        assert(seq![s[0]] + s.skip(1) == s);
    }
}

/// A backslash and an escape letter, standing alone, decode to the one
/// character that the pair names.
pub proof fn lemma_unescape_escape_pair(c: char)
    requires
        is_escape_letter(c),
    ensures
        unescaped(seq!['\\', c]) == seq![escape_value(c)],
        c == 'n' ==> unescaped(seq!['\\', c]) == seq!['\n'],
        c == 't' ==> unescaped(seq!['\\', c]) == seq!['\t'],
        c == 'r' ==> unescaped(seq!['\\', c]) == seq!['\r'],
        c == '\\' ==> unescaped(seq!['\\', c]) == seq!['\\'],
        c == '"' ==> unescaped(seq!['\\', c]) == seq!['"'],
{
    lemma_unescape_pair_then(c, Seq::empty());
    assert(seq!['\\', c] + Seq::<char>::empty() == seq!['\\', c]);
    assert(escape_pair(c) + Seq::<char>::empty() == escape_pair(c));
}

/// A backslash and a character that is no escape letter decode to
/// themselves.
pub proof fn lemma_unescape_unknown_pair(c: char)
    requires
        !is_escape_letter(c),
    ensures
        unescaped(seq!['\\', c]) == seq!['\\', c],
{
    lemma_unescape_pair_then(c, Seq::empty());
    assert(seq!['\\', c] + Seq::<char>::empty() == seq!['\\', c]);
    assert(escape_pair(c) + Seq::<char>::empty() == escape_pair(c));
}

/// A text that begins with a backslash and a character decodes to what
/// that pair decodes to, followed by the decoding of the rest.
pub proof fn lemma_unescape_pair_then(c: char, rest: Seq<char>)
    ensures
        unescaped(seq!['\\', c] + rest) == escape_pair(c) + unescaped(rest),
{
    let s = seq!['\\', c] + rest;
    assert(s[0] == '\\' && s[1] == c);
    assert(s.skip(2) == rest);
}

/// A text that begins with a character other than the backslash decodes to
/// that character, followed by the decoding of the rest.
pub proof fn lemma_unescape_plain_then(c: char, rest: Seq<char>)
    requires
        c != '\\',
    ensures
        unescaped(seq![c] + rest) == seq![c] + unescaped(rest),
{
    let s = seq![c] + rest;
    assert(s[0] == c);
    assert(s.skip(1) == rest);
}

/// The decoding of a text that ends with a backslash ends with a backslash.
pub proof fn lemma_unescape_trailing_backslash(s: Seq<char>)
    ensures
        unescaped(s.push('\\')).len() > 0,
        unescaped(s.push('\\')).last() == '\\',
    decreases s.len(),
{
    let t = s.push('\\');
    if s.len() == 0 {
        assert(t.len() == 1 && t[0] == '\\');
    } else if s[0] != '\\' {
        assert(t[0] == s[0]);
        assert(t.skip(1) == s.skip(1).push('\\'));
        lemma_unescape_trailing_backslash(s.skip(1));
    } else if s.len() == 1 {
        assert(t[0] == '\\' && t[1] == '\\');
        assert(t.skip(2) == Seq::<char>::empty());
        assert(unescaped(t.skip(2)) == Seq::<char>::empty());
        assert(unescaped(t) == seq!['\\'] + Seq::<char>::empty());
    } else {
        assert(t[0] == '\\' && t[1] == s[1]);
        assert(t.skip(2) == s.skip(2).push('\\'));
        lemma_unescape_trailing_backslash(s.skip(2));
    }
}

/// A backslash at the end of a text that holds no other decodes to itself:
/// the text is returned as it is.
pub proof fn lemma_unescape_lone_trailing_backslash(s: Seq<char>)
    requires
        !s.contains('\\'),
    ensures
        unescaped(s.push('\\')) == s.push('\\'),
    decreases s.len(),
{
    let t = s.push('\\');
    if s.len() == 0 {
        assert(t.len() == 1 && t[0] == '\\');
        assert(t == seq!['\\']);
    } else {
        assert(s.contains(s[0]));
        assert forall|c: char| s.skip(1).contains(c) implies s.contains(c) by {
            let i = choose|i: int| 0 <= i < s.skip(1).len() && s.skip(1)[i] == c;
            assert(s[i + 1] == c);
        }
        assert(t[0] == s[0]);
        assert(t.skip(1) == s.skip(1).push('\\'));
        lemma_unescape_lone_trailing_backslash(s.skip(1));
        assert(seq![t[0]] + t.skip(1) == t);
    }
}

/// Whatever stands before it, a name that ends in `.yaml`, `.yml`, `.json`
/// or `.toml` names an embedded document.
pub proof fn lemma_suffix_makes_peelable(stem: Seq<char>)
    ensures
        is_peelable_key(stem + ".yaml"@),
        is_peelable_key(stem + ".yml"@),
        is_peelable_key(stem + ".json"@),
        is_peelable_key(stem + ".toml"@),
{
    assert((stem + ".yaml"@).skip(stem.len() as int) == ".yaml"@);
    assert((stem + ".yml"@).skip(stem.len() as int) == ".yml"@);
    assert((stem + ".json"@).skip(stem.len() as int) == ".json"@);
    assert((stem + ".toml"@).skip(stem.len() as int) == ".toml"@);
}

/// A name of fewer than four characters names no embedded document.
pub proof fn lemma_short_key_is_not_peelable(key: Seq<char>)
    requires
        key.len() < 4,
    ensures
        !is_peelable_key(key),
{
    reveal_strlit(".yaml");
    reveal_strlit(".yml");
    reveal_strlit(".json");
    reveal_strlit(".toml");
}

/// Peeling changes only a root that says `kind: ConfigMap`.
pub proof fn lemma_peel_needs_config_map(entries: Seq<(Tree, Tree)>)
    requires
        !is_config_map(entries),
    ensures
        peeled(Tree::Mapping(entries)) == Tree::Mapping(entries),
{
}

/// Peeling leaves a document that is no mapping as it is.
pub proof fn lemma_peel_needs_mapping(tree: Tree)
    requires
        !(tree is Mapping),
    ensures
        peeled(tree) == tree,
{
}

/// Peeling leaves every entry of the `data` mapping whose value is no
/// string as it is, whatever its key.
pub proof fn lemma_peel_leaves_other_values(entry: (Tree, Tree))
    requires
        !(entry.1 is String),
    ensures
        peeled_entry(entry) == entry,
{
}

/// Peeling leaves every entry of the `data` mapping as it is whose key is
/// no string or does not name an embedded document.
pub proof fn lemma_peel_leaves_other_keys(entry: (Tree, Tree))
    requires
        entry.0 matches Tree::String(key) ==> !is_peelable_key(key),
    ensures
        peeled_entry(entry) == entry,
{
}

/// Two documents of the same shape: the same kind of node at every place,
/// the same keys in the same order in every mapping, and the same value
/// wherever it is no string.
pub open spec fn same_shape(a: Tree, b: Tree) -> bool
    decreases a,
{
    match a {
        Tree::Mapping(left) => {
            &&& b matches Tree::Mapping(right)
            &&& left.len() == right.len()
            &&& forall|i: int|
                0 <= i < left.len() ==> left[i].0 == right[i].0 && same_shape(
                    #[trigger] left[i].1,
                    right[i].1,
                )
        },
        Tree::String(_) => b is String,
        _ => a == b,
    }
}

/// Every document has its own shape.
pub proof fn lemma_same_shape_reflexive(a: Tree)
    ensures
        same_shape(a, a),
    decreases a,
{
    match a {
        Tree::Mapping(entries) => {
            assert forall|i: int| 0 <= i < entries.len() implies same_shape(
                #[trigger] entries[i].1,
                entries[i].1,
            ) by {
                lemma_same_shape_reflexive(entries[i].1);
            }
        },
        _ => {},
    }
}

/// Peeling keeps the shape of a document: it changes string values and
/// nothing else. No node changes its kind, no key is added, removed, renamed
/// or moved.
pub proof fn lemma_peel_keeps_shape(tree: Tree)
    ensures
        same_shape(tree, peeled(tree)),
{
    match tree {
        Tree::Mapping(entries) => {
            let after = peeled_root(entries);
            assert(after.len() == entries.len());
            assert forall|i: int| 0 <= i < entries.len() implies entries[i].0 == after[i].0
                && same_shape(#[trigger] entries[i].1, after[i].1) by {
                if after[i] == entries[i] {
                    lemma_same_shape_reflexive(entries[i].1);
                } else {
                    let data = entries[i].1->Mapping_0;
                    let new_data = peeled_data(data);
                    assert(after[i].1 == Tree::Mapping(new_data));
                    assert forall|j: int| 0 <= j < data.len() implies data[j].0 == new_data[j].0
                        && same_shape(#[trigger] data[j].1, new_data[j].1) by {
                        if new_data[j] == data[j] {
                            lemma_same_shape_reflexive(data[j].1);
                        }
                    }
                }
            }
        },
        _ => {
            lemma_same_shape_reflexive(tree);
        },
    }
}

/// Where no key stands twice, an entry is found under its key: the first
/// entry under a key is the only one.
pub proof fn lemma_lookup_finds_the_entry(entries: Seq<(Tree, Tree)>, key: Seq<char>, at: int)
    requires
        distinct_string_keys(entries),
        0 <= at < entries.len(),
        entries[at].0 == Tree::String(key),
    ensures
        key_index(entries, key) == at,
        lookup(entries, key) == Some(entries[at].1),
    decreases entries.len(),
{
    if entries[0].0 == Tree::String(key) {
        if at != 0 {
            assert(entries[0].0 != entries[at].0);
        }
    } else {
        let rest = entries.skip(1);
        assert forall|i: int, j: int|
            #![trigger rest[i], rest[j]]
            0 <= i < j < rest.len() && rest[i].0 is String implies rest[i].0 != rest[j].0 by {
            assert(entries[i + 1].0 != entries[j + 1].0);
        }
        assert(rest[at - 1] == entries[at]);
        lemma_lookup_finds_the_entry(rest, key, at - 1);
    }
}

/// Peeling keeps a document well formed.
pub proof fn lemma_peel_keeps_well_formed(tree: Tree)
    requires
        tree.well_formed(),
    ensures
        peeled(tree).well_formed(),
{
    if let Tree::Mapping(entries) = tree {
        let after = peeled_root(entries);
        assert forall|i: int| 0 <= i < after.len() implies (#[trigger] after[i]).0.well_formed()
            && after[i].1.well_formed() by {
            assert(entries[i].0.well_formed() && entries[i].1.well_formed());
            if after[i] != entries[i] {
                let data = entries[i].1->Mapping_0;
                let new_data = peeled_data(data);
                assert forall|j: int, k: int|
                    #![trigger new_data[j], new_data[k]]
                    0 <= j < k < new_data.len()
                        && new_data[j].0 is String implies new_data[j].0 != new_data[k].0 by {
                    assert(data[j].0 != data[k].0);
                }
                assert forall|j: int| 0 <= j < new_data.len() implies (
                #[trigger] new_data[j]).0.well_formed() && new_data[j].1.well_formed() by {
                    assert(data[j].0.well_formed() && data[j].1.well_formed());
                }
            }
        }
        assert forall|i: int, j: int|
            #![trigger after[i], after[j]]
            0 <= i < j < after.len() && after[i].0 is String implies after[i].0 != after[j].0 by {
            assert(entries[i].0 != entries[j].0);
        }
    }
}

/// A string value without a newline, without a double quote and without a
/// space at either end is written as it is, with no quotes around it.
pub proof fn lemma_plain_scalar_is_bare(text: Seq<char>)
    requires
        !needs_quotes(text),
    ensures
        inline_scalar(text) == text,
{
}

/// An entry whose value is such a string is one line: the indentation, the
/// key, a colon and a space, the value as it is, a newline. No quotes, no
/// block marker.
pub proof fn lemma_plain_entry_is_one_line(
    key: Seq<char>,
    text: Seq<char>,
    nested: Option<Seq<char>>,
    level: nat,
)
    requires
        !needs_quotes(text),
    ensures
        entry_text(Tree::String(key), Tree::String(text), nested, level) == Some(
            indentation(level) + key + seq![':', ' '] + text + seq!['\n'],
        ),
{
}

} // verus!
