//! Configuration trees and the values that scripts return.
use vstd::prelude::*;
use crate::number::{decimal, format_i64, format_u64, signed_decimal};
use crate::text::same;

verus! {

/// A number of a configuration tree. A number with a fraction or an exponent, an infinity or a
/// number that is none of these is kept as its text.
#[derive(Debug)]
pub enum Number {
    Unsigned(u64),
    Negative(i64),
    Float(String),
}

/// A configuration tree.
#[derive(Debug)]
pub enum Yaml {
    Null,
    Bool(bool),
    Number(Number),
    String(String),
    Sequence(Vec<Yaml>),
    Mapping(Vec<(Yaml, Yaml)>),
    /// A value with a tag; the tag is held without its exclamation mark.
    Tagged { tag: String, value: Box<Yaml> },
}

/// The model of a number.
#[verifier::ext_equal]
pub enum Numeral {
    Unsigned(nat),
    Negative(int),
    Float(Seq<char>),
}

/// The model of a configuration tree.
#[verifier::ext_equal]
pub enum Tree {
    Null,
    Bool(bool),
    Number(Numeral),
    Text(Seq<char>),
    Sequence(Seq<Tree>),
    Mapping(Seq<(Tree, Tree)>),
    Tagged(Seq<char>, Box<Tree>),
}

impl View for Number {
    type V = Numeral;

    open spec fn view(&self) -> Numeral {
        match self {
            Number::Unsigned(n) => Numeral::Unsigned(*n as nat),
            Number::Negative(n) => Numeral::Negative(*n as int),
            Number::Float(s) => Numeral::Float(s@),
        }
    }
}

/// The tree of a value.
pub open spec fn tree(v: Yaml) -> Tree
    decreases v,
{
    match v {
        Yaml::Null => Tree::Null,
        Yaml::Bool(b) => Tree::Bool(b),
        Yaml::Number(n) => Tree::Number(n@),
        Yaml::String(s) => Tree::Text(s@),
        Yaml::Sequence(items) => Tree::Sequence(
            Seq::new(items@.len(), |i: int| if 0 <= i < items@.len() { tree(items@[i]) } else { Tree::Null }),
        ),
        Yaml::Mapping(entries) => Tree::Mapping(
            Seq::new(
                entries@.len(),
                |i: int|
                    if 0 <= i < entries@.len() {
                        (tree(entries@[i].0), tree(entries@[i].1))
                    } else {
                        (Tree::Null, Tree::Null)
                    },
            ),
        ),
        Yaml::Tagged { tag, value } => Tree::Tagged(tag@, Box::new(tree(*value))),
    }
}

impl View for Yaml {
    type V = Tree;

    open spec fn view(&self) -> Tree {
        tree(*self)
    }
}

/// The text of a number.
pub open spec fn numeral_text(n: Numeral) -> Seq<char> {
    match n {
        Numeral::Unsigned(k) => decimal(k),
        Numeral::Negative(k) => signed_decimal(k),
        Numeral::Float(s) => s,
    }
}

/// The text of a truth value.
pub open spec fn bool_text(b: bool) -> Seq<char> {
    if b {
        "true"@
    } else {
        "false"@
    }
}

/// The text of a truth value.
pub fn format_bool(b: bool) -> (r: String)
    ensures
        r@ == bool_text(b),
{
    if b {
        "true".to_owned()
    } else {
        "false".to_owned()
    }
}

impl Number {
    /// The text of the number.
    pub fn format(&self) -> (r: String)
        ensures
            r@ == numeral_text(self@),
    {
        match self {
            Number::Unsigned(n) => format_u64(*n),
            Number::Negative(n) => format_i64(*n),
            Number::Float(s) => s.clone(),
        }
    }

    /// An equal number.
    pub fn copy(&self) -> (r: Number)
        ensures
            r@ == self@,
    {
        match self {
            Number::Unsigned(n) => Number::Unsigned(*n),
            Number::Negative(n) => Number::Negative(*n),
            Number::Float(s) => Number::Float(s.clone()),
        }
    }
}

/// The trees of a list of values.
pub open spec fn trees(items: Seq<Yaml>) -> Seq<Tree> {
    items.map_values(|v: Yaml| tree(v))
}

/// The trees of a list of entries.
pub open spec fn entry_trees(entries: Seq<(Yaml, Yaml)>) -> Seq<(Tree, Tree)> {
    entries.map_values(|e: (Yaml, Yaml)| (tree(e.0), tree(e.1)))
}

/// The tree of a sequence or mapping in terms of the trees of its parts.
pub broadcast proof fn lemma_tree_parts(v: Yaml)
    ensures
        #![trigger tree(v)]
        v matches Yaml::Sequence(items) ==> tree(v) == Tree::Sequence(trees(items@)),
        v matches Yaml::Mapping(entries) ==> tree(v) == Tree::Mapping(entry_trees(entries@)),
{
    match v {
        Yaml::Sequence(items) => {
            assert(tree(v)->Sequence_0 =~= trees(items@));
        },
        Yaml::Mapping(entries) => {
            assert(tree(v)->Mapping_0 =~= entry_trees(entries@));
        },
        _ => {},
    }
}

/// A tree without the tags around it.
pub open spec fn untagged(t: Tree) -> Tree
    decreases t,
{
    match t {
        Tree::Tagged(_, inner) => untagged(*inner),
        _ => t,
    }
}

/// The first position of the key `key`, or the number of entries.
pub open spec fn key_index(entries: Seq<(Tree, Tree)>, key: Tree) -> int
    decreases entries.len(),
{
    if entries.len() == 0 || entries[0].0 == key {
        0
    } else {
        1 + key_index(entries.skip(1), key)
    }
}

/// The value of the key `key`.
pub open spec fn lookup(entries: Seq<(Tree, Tree)>, key: Tree) -> Option<Tree> {
    let i = key_index(entries, key);
    if i < entries.len() {
        Some(entries[i].1)
    } else {
        None
    }
}

/// What `key_index` finds.
pub proof fn lemma_key_index(entries: Seq<(Tree, Tree)>, key: Tree)
    ensures
        0 <= key_index(entries, key) <= entries.len(),
        forall|j: int| 0 <= j < key_index(entries, key) ==> (#[trigger] entries[j]).0 != key,
        key_index(entries, key) < entries.len() ==> entries[key_index(entries, key)].0 == key,
    decreases entries.len(),
{
    if entries.len() > 0 && entries[0].0 != key {
        lemma_key_index(entries.skip(1), key);
        assert forall|j: int| 0 <= j < key_index(entries, key) implies (#[trigger] entries[j]).0
            != key by {
            if j > 0 {
                assert(entries.skip(1)[j - 1] == entries[j]);
            }
        }
    }
}

/// `key_index` is determined by what it finds.
pub proof fn lemma_key_index_unique(entries: Seq<(Tree, Tree)>, key: Tree, k: int)
    requires
        0 <= k <= entries.len(),
        forall|j: int| 0 <= j < k ==> (#[trigger] entries[j]).0 != key,
        k < entries.len() ==> entries[k].0 == key,
    ensures
        key_index(entries, key) == k,
{
    lemma_key_index(entries, key);
}

/// The entries with `key` set to `value`: in place if the key is there, else at the end.
pub open spec fn put(entries: Seq<(Tree, Tree)>, key: Tree, value: Tree) -> Seq<(Tree, Tree)> {
    let i = key_index(entries, key);
    if i < entries.len() {
        entries.update(i, (entries[i].0, value))
    } else {
        entries.push((key, value))
    }
}

impl Yaml {
    /// The text, if the value is one under any tags.
    pub fn as_str(&self) -> (r: Option<&str>)
        ensures
            match r {
                Some(s) => untagged(self@) == Tree::Text(s@),
                None => !(untagged(self@) is Text),
            },
    {
        match self.untag() {
            Yaml::String(s) => Some(s.as_str()),
            _ => None,
        }
    }

    /// Whether the value is a text without tags, and which.
    pub fn is_the_text(&self, text: &str) -> (r: bool)
        ensures
            r == (self@ == Tree::Text(text@)),
    {
        match self {
            Yaml::String(s) => same(s.as_str(), text),
            _ => false,
        }
    }

    /// The value without the tags around it.
    pub fn untag(&self) -> (r: &Yaml)
        ensures
            r@ == untagged(self@),
            !(r@ is Tagged),
        decreases self,
    {
        match self {
            Yaml::Tagged { value, .. } => value.untag(),
            _ => self,
        }
    }

    /// An equal value.
    pub fn copy(&self) -> (r: Yaml)
        ensures
            r@ == self@,
        decreases self,
    {
        broadcast use lemma_tree_parts;

        match self {
            Yaml::Null => Yaml::Null,
            Yaml::Bool(b) => Yaml::Bool(*b),
            Yaml::Number(n) => Yaml::Number(n.copy()),
            Yaml::String(s) => Yaml::String(s.clone()),
            Yaml::Sequence(items) => {
                let mut out: Vec<Yaml> = Vec::new();
                let mut i: usize = 0;
                while i < items.len()
                    invariant
                        i <= items@.len(),
                        trees(out@) == trees(items@).take(i as int),
                        decreases_to!(self => items@),
                    decreases items@.len() - i,
                {
                    let ghost before = out@;
                    assert(decreases_to!(self => items@[i as int]));
                    let item = items[i].copy();
                    out.push(item);
                    assert(trees(out@) == trees(before).push(tree(item)));
                    assert(trees(items@).take(i + 1) == trees(items@).take(i as int).push(
                        tree(items@[i as int]),
                    ));
                    i += 1;
                }
                assert(trees(items@).take(i as int) == trees(items@));
                Yaml::Sequence(out)
            },
            Yaml::Mapping(entries) => {
                let mut out: Vec<(Yaml, Yaml)> = Vec::new();
                let mut i: usize = 0;
                while i < entries.len()
                    invariant
                        i <= entries@.len(),
                        entry_trees(out@) == entry_trees(entries@).take(i as int),
                        decreases_to!(self => entries@),
                    decreases entries@.len() - i,
                {
                    let ghost before = out@;
                    assert(decreases_to!(self => entries@[i as int].0));
                    assert(decreases_to!(self => entries@[i as int].1));
                    let key = entries[i].0.copy();
                    let val = entries[i].1.copy();
                    out.push((key, val));
                    assert(entry_trees(out@) == entry_trees(before).push((tree(key), tree(val))));
                    assert(entry_trees(entries@).take(i + 1) == entry_trees(entries@).take(
                        i as int,
                    ).push((tree(entries@[i as int].0), tree(entries@[i as int].1))));
                    i += 1;
                }
                assert(entry_trees(entries@).take(i as int) == entry_trees(entries@));
                Yaml::Mapping(out)
            },
            Yaml::Tagged { tag, value } => Yaml::Tagged {
                tag: tag.clone(),
                value: Box::new(value.copy()),
            },
        }
    }
}

/// The value of the text key `key`.
pub fn get_key<'a>(entries: &'a Vec<(Yaml, Yaml)>, key: &str) -> (r: Option<&'a Yaml>)
    ensures
        match r {
            Some(v) => lookup(entry_trees(entries@), Tree::Text(key@)) == Some(v@),
            None => lookup(entry_trees(entries@), Tree::Text(key@)) is None,
        },
{
    match find_key(entries, key) {
        Some(i) => {
            assert(entry_trees(entries@)[i as int].1 == entries@[i as int].1@);
            Some(&entries[i].1)
        },
        None => None,
    }
}

/// The position of the text key `key`.
pub fn find_key(entries: &Vec<(Yaml, Yaml)>, key: &str) -> (r: Option<usize>)
    ensures
        match r {
            Some(i) => i < entries@.len() && key_index(entry_trees(entries@), Tree::Text(key@)) == i,
            None => key_index(entry_trees(entries@), Tree::Text(key@)) == entries@.len(),
        },
{
    let ghost all = entry_trees(entries@);
    let mut i: usize = 0;
    while i < entries.len()
        invariant
            i <= entries@.len(),
            all == entry_trees(entries@),
            forall|j: int| 0 <= j < i ==> (#[trigger] all[j]).0 != Tree::Text(key@),
        decreases entries@.len() - i,
    {
        assert(all[i as int] == (tree(entries@[i as int].0), tree(entries@[i as int].1)));
        if entries[i].0.is_the_text(key) {
            proof {
                lemma_key_index_unique(all, Tree::Text(key@), i as int);
            }
            return Some(i);
        }
        i += 1;
    }
    proof {
        lemma_key_index_unique(all, Tree::Text(key@), i as int);
    }
    None
}

/// A key is found at its first entry, and is not found where no entry has it.
pub proof fn law_first_entry_is_found(
    entries: Vec<(Yaml, Yaml)>,
    key: &str,
    r: Option<usize>,
    k: int,
)
    requires
        call_ensures(find_key, (&entries, key), r),
    ensures
        r matches Some(i) ==> i < entries@.len() && (entries@[i as int].0 matches Yaml::String(s)
            && s@ == key@),
        0 <= k < entries@.len() && (entries@[k].0 matches Yaml::String(s) && s@ == key@) ==> (
        r matches Some(i) && i <= k),
{
    let all = entry_trees(entries@);
    lemma_key_index(all, Tree::Text(key@));
    if let Some(i) = r {
        assert(all[i as int] == (tree(entries@[i as int].0), tree(entries@[i as int].1)));
    }
    if 0 <= k < entries@.len() {
        assert(all[k] == (tree(entries@[k].0), tree(entries@[k].1)));
    }
}

/// Whatever tags stand around a value, what is inside is the value.
pub proof fn law_tags_are_taken_off(tag: String, inner: Box<Yaml>)
    ensures
        untagged((Yaml::Tagged { tag, value: inner })@) == untagged(inner@),
        !(inner@ is Tagged) ==> untagged(inner@) == inner@,
{
}

} // verus!
