//! How values are shown in messages.
use vstd::prelude::*;
use vstd::string::*;
use crate::text::{concat3, concat5, join, joined, quote, quoted, views};
use crate::value::{
    bool_text, entry_trees, format_bool, lemma_tree_parts, numeral_text, trees, Tree, Yaml,
};

verus! {

/// A tree as `Debug` of `serde_yaml::Value` writes it.
pub open spec fn shown(t: Tree) -> Seq<char>
    decreases t, 0nat,
{
    match t {
        Tree::Null => "Null"@,
        Tree::Bool(b) => "Bool("@ + bool_text(b) + ")"@,
        Tree::Number(n) => "Number("@ + numeral_text(n) + ")"@,
        Tree::Text(s) => "String("@ + quoted(s) + ")"@,
        Tree::Sequence(items) => "Sequence ["@ + joined(shown_items(items, items.len()), ", "@)
            + "]"@,
        Tree::Mapping(entries) => "Mapping {"@ + joined(
            shown_entries(entries, entries.len()),
            ", "@,
        ) + "}"@,
        Tree::Tagged(tag, inner) => "TaggedValue { tag: !"@ + tag + ", value: "@ + shown(*inner)
            + " }"@,
    }
}

/// The first `n` items of a list, as they are shown.
pub open spec fn shown_items(items: Seq<Tree>, n: nat) -> Seq<Seq<char>>
    decreases items, n,
{
    if n == 0 || n > items.len() {
        seq![]
    } else {
        shown_items(items, (n - 1) as nat).push(shown(items[n - 1]))
    }
}

/// The first `n` entries of a mapping, as they are shown. Keys that are texts, numbers or truth
/// values are shown without their kind.
pub open spec fn shown_entries(entries: Seq<(Tree, Tree)>, n: nat) -> Seq<Seq<char>>
    decreases entries, n,
{
    if n == 0 || n > entries.len() {
        seq![]
    } else {
        let key = match entries[n - 1].0 {
            Tree::Bool(b) => bool_text(b),
            Tree::Number(k) => numeral_text(k),
            Tree::Text(s) => quoted(s),
            _ => shown(entries[n - 1].0),
        };
        shown_entries(entries, (n - 1) as nat).push(key + ": "@ + shown(entries[n - 1].1))
    }
}

/// A key of a mapping, as it is shown.
pub open spec fn shown_key(t: Tree) -> Seq<char> {
    match t {
        Tree::Bool(b) => bool_text(b),
        Tree::Number(n) => numeral_text(n),
        Tree::Text(s) => quoted(s),
        _ => shown(t),
    }
}

/// A key of a mapping, as it is shown, if it is no list, mapping or the like.
fn show_plain_key(key: &Yaml) -> (r: Option<String>)
    ensures
        match r {
            Some(s) => s@ == shown_key(key@),
            None => shown_key(key@) == shown(key@),
        },
{
    broadcast use lemma_tree_parts;

    match key {
        Yaml::Bool(b) => Some(format_bool(*b)),
        Yaml::Number(n) => Some(n.format()),
        Yaml::String(s) => Some(quote(s.as_str())),
        _ => None,
    }
}

/// A value, as it is shown.
pub fn show(value: &Yaml) -> (r: String)
    ensures
        r@ == shown(value@),
    decreases value,
{
    broadcast use lemma_tree_parts;

    match value {
        Yaml::Null => "Null".to_owned(),
        Yaml::Bool(b) => concat3("Bool(", format_bool(*b).as_str(), ")"),
        Yaml::Number(n) => concat3("Number(", n.format().as_str(), ")"),
        Yaml::String(s) => concat3("String(", quote(s.as_str()).as_str(), ")"),
        Yaml::Sequence(items) => {
            let ghost all = trees(items@);
            let mut parts: Vec<String> = Vec::new();
            let mut i: usize = 0;
            assert(views(parts@) == Seq::<Seq<char>>::empty());
            while i < items.len()
                invariant
                    i <= items@.len(),
                    all == trees(items@),
                    views(parts@) == shown_items(all, i as nat),
                    decreases_to!(value => items@),
                decreases items@.len() - i,
            {
                let ghost before = views(parts@);
                assert(decreases_to!(value => items@[i as int]));
                let part = show(&items[i]);
                assert(all[i as int] == items@[i as int]@);
                parts.push(part);
                assert(views(parts@) == before.push(part@));
                i += 1;
            }
            concat3("Sequence [", join(&parts, ", ").as_str(), "]")
        },
        Yaml::Mapping(entries) => {
            let ghost all = entry_trees(entries@);
            let mut parts: Vec<String> = Vec::new();
            let mut i: usize = 0;
            assert(views(parts@) == Seq::<Seq<char>>::empty());
            while i < entries.len()
                invariant
                    i <= entries@.len(),
                    all == entry_trees(entries@),
                    views(parts@) == shown_entries(all, i as nat),
                    decreases_to!(value => entries@),
                decreases entries@.len() - i,
            {
                let ghost before = views(parts@);
                assert(decreases_to!(value => entries@[i as int]));
                assert(all[i as int] == (entries@[i as int].0@, entries@[i as int].1@));
                let key = match show_plain_key(&entries[i].0) {
                    Some(k) => k,
                    None => show(&entries[i].0),
                };
                let shown_value = show(&entries[i].1);
                let part = concat3(key.as_str(), ": ", shown_value.as_str());
                parts.push(part);
                assert(views(parts@) == before.push(part@));
                i += 1;
            }
            concat3("Mapping {", join(&parts, ", ").as_str(), "}")
        },
        Yaml::Tagged { tag, value: inner } => {
            let shown_value = show(inner);
            concat5(
                "TaggedValue { tag: !",
                tag.as_str(),
                ", value: ",
                shown_value.as_str(),
                " }",
            )
        },
    }
}

} // verus!
