//! The document tree and its mathematical model.

use vstd::prelude::*;
use crate::text::same_text;

verus! {

/// A node of a configuration document.
///
/// A mapping keeps its entries in the order in which they were read. The
/// peeler reads only mappings and strings: a number, the items of a sequence
/// and a tagged value are carried as the YAML library holds them.
#[derive(Debug, PartialEq)]
pub enum Document {
    Null,
    Bool(bool),
    Number(serde_yaml::Number),
    String(String),
    Sequence(Vec<serde_yaml::Value>),
    Mapping(Vec<(Document, Document)>),
    Tagged(serde_yaml::value::TaggedValue),
}

/// What a [`Document`] is, as a mathematical value.
pub enum Tree {
    Null,
    Bool(bool),
    Number(serde_yaml::Number),
    String(Seq<char>),
    Sequence(Seq<serde_yaml::Value>),
    Mapping(Seq<(Tree, Tree)>),
    Tagged(serde_yaml::value::TaggedValue),
}

impl Document {
    /// The tree of this document. (The positions beyond the entries of a
    /// mapping never count: naming them lets the definition be seen to end.)
    pub open spec fn tree(&self) -> Tree
        decreases self,
    {
        match self {
            Document::Null => Tree::Null,
            Document::Bool(b) => Tree::Bool(*b),
            Document::Number(n) => Tree::Number(*n),
            Document::String(s) => Tree::String(s@),
            Document::Sequence(items) => Tree::Sequence(items@),
            Document::Mapping(entries) => Tree::Mapping(
                Seq::new(
                    entries@.len(),
                    |i: int|
                        if 0 <= i < entries@.len() {
                            (entries@[i].0.tree(), entries@[i].1.tree())
                        } else {
                            (Tree::Null, Tree::Null)
                        },
                ),
            ),
            Document::Tagged(t) => Tree::Tagged(*t),
        }
    }
}

impl View for Document {
    type V = Tree;

    open spec fn view(&self) -> Tree {
        self.tree()
    }
}

/// The entries of a mapping, each key and value as a tree.
pub open spec fn entries_view(entries: Seq<(Document, Document)>) -> Seq<(Tree, Tree)> {
    Seq::new(entries.len(), |i: int| (entries[i].0@, entries[i].1@))
}

/// Where the string key `key` stands among `entries`: the position of the
/// first entry whose key is that string, or the number of entries if there
/// is none.
pub open spec fn key_index(entries: Seq<(Tree, Tree)>, key: Seq<char>) -> nat
    decreases entries.len(),
{
    if entries.len() == 0 || entries[0].0 == Tree::String(key) {
        0
    } else {
        1 + key_index(entries.skip(1), key)
    }
}

/// The value stored under the string key `key`, if there is one.
pub open spec fn lookup(entries: Seq<(Tree, Tree)>, key: Seq<char>) -> Option<Tree> {
    if key_index(entries, key) < entries.len() {
        Some(entries[key_index(entries, key) as int].1)
    } else {
        None
    }
}

/// No two of the entries have the same string as their key.
pub open spec fn distinct_string_keys(entries: Seq<(Tree, Tree)>) -> bool {
    forall|i: int, j: int|
        #![trigger entries[i], entries[j]]
        0 <= i < j < entries.len() && entries[i].0 is String ==> entries[i].0 != entries[j].0
}

impl Tree {
    /// A tree is well formed when in each of its mappings, at every depth,
    /// no two entries have the same string as their key.
    pub open spec fn well_formed(self) -> bool
        decreases self,
    {
        match self {
            Tree::Mapping(entries) => {
                &&& distinct_string_keys(entries)
                &&& forall|i: int|
                    0 <= i < entries.len() ==> (#[trigger] entries[i]).0.well_formed()
                        && entries[i].1.well_formed()
            },
            _ => true,
        }
    }
}

/// The view of a mapping is the view of its entries.
pub proof fn lemma_mapping_view(entries: Vec<(Document, Document)>)
    ensures
        Document::Mapping(entries)@ == Tree::Mapping(entries_view(entries@)),
{
    let tree = Document::Mapping(entries)@;
    let s = tree->Mapping_0;
    assert(s.len() == entries@.len());
    assert(s =~= entries_view(entries@));
}

/// The position of the first entry whose key is the string `key`, or the
/// number of entries if there is none.
pub fn find_key(entries: &Vec<(Document, Document)>, key: &str) -> (index: usize)
    ensures
        index == key_index(entries_view(entries@), key@),
        index <= entries.len(),
{
    let ghost all = entries_view(entries@);
    let mut i: usize = 0;
    assert(all.skip(0) == all);
    while i < entries.len()
        invariant
            i <= entries.len(),
            all == entries_view(entries@),
            key_index(all, key@) == i + key_index(all.skip(i as int), key@),
        decreases entries.len() - i,
    {
        let found = match &entries[i].0 {
            Document::String(name) => same_text(name.as_str(), key),
            _ => false,
        };
        assert(all.skip(i as int)[0] == all[i as int]);
        assert(found == (all[i as int].0 == Tree::String(key@)));
        if found {
            return i;
        }
        assert(all.skip(i as int).skip(1) == all.skip(i as int + 1));
        i += 1;
    }
    i
}

impl Document {
    /// The value stored under the string key `key`, where this document is a
    /// mapping that has such a key.
    pub fn get(&self, key: &str) -> (found: Option<&Document>)
        ensures
            match found {
                Some(value) => self@ matches Tree::Mapping(entries) && lookup(entries, key@)
                    == Some(value@),
                None => self@ matches Tree::Mapping(entries) ==> lookup(entries, key@) is None,
            },
    {
        match self {
            Document::Mapping(entries) => {
                proof {
                    lemma_mapping_view(*entries);
                }
                let at = find_key(entries, key);
                if at < entries.len() {
                    Some(&entries[at].1)
                } else {
                    None
                }
            },
            _ => None,
        }
    }

    /// Whether this document is well formed: whether no mapping in it holds
    /// the same string key twice.
    pub fn is_well_formed(&self) -> (ok: bool)
        ensures
            ok == self@.well_formed(),
        decreases self,
    {
        match self {
            Document::Mapping(entries) => {
                proof {
                    lemma_mapping_view(*entries);
                }
                let ghost all = entries_view(entries@);
                let mut i: usize = 0;
                while i < entries.len()
                    invariant
                        i <= entries.len(),
                        all == entries_view(entries@),
                        self == Document::Mapping(*entries),
                        self@ == Tree::Mapping(all),
                        forall|k: int|
                            0 <= k < i ==> (#[trigger] all[k]).0.well_formed()
                                && all[k].1.well_formed(),
                        forall|k: int, j: int|
                            #![trigger all[k], all[j]]
                            0 <= k < i && k < j < all.len() && all[k].0 is String ==> all[k].0
                                != all[j].0,
                    decreases entries.len() - i,
                {
                    if !entries[i].0.is_well_formed() || !entries[i].1.is_well_formed() {
                        assert(!(all[i as int].0.well_formed() && all[i as int].1.well_formed()));
                        return false;
                    }
                    match &entries[i].0 {
                        Document::String(name) => {
                            let mut j: usize = i + 1;
                            while j < entries.len()
                                invariant
                                    i < j <= entries.len(),
                                    all == entries_view(entries@),
                                    self@ == Tree::Mapping(all),
                                    all[i as int].0 == Tree::String(name@),
                                    forall|m: int| i < m < j ==> all[i as int].0 != all[m].0,
                                decreases entries.len() - j,
                            {
                                let twice = match &entries[j].0 {
                                    Document::String(other) => same_text(
                                        name.as_str(),
                                        other.as_str(),
                                    ),
                                    _ => false,
                                };
                                if twice {
                                    assert(all[i as int].0 == all[j as int].0);
                                    return false;
                                }
                                j += 1;
                            }
                        },
                        _ => {},
                    }
                    i += 1;
                }
                true
            },
            _ => true,
        }
    }
}

} // verus!
