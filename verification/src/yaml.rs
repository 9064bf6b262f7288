//! Configuration trees from texts.
use std::collections::VecDeque;
use serde_yaml::Value;
use vstd::prelude::*;
use crate::errors::{Location, ParseFailure};
use crate::value::{entry_trees, lemma_tree_parts, trees, Number, Numeral, Tree, Yaml};

verus! {

/// A parsed value of `serde_yaml`.
#[verifier::external_type_specification]
#[verifier::external_body]
pub struct ExParsed(serde_yaml::Value);

/// The tree that a text stands for, or the field, the line and column and the message of why
/// there is none, as `serde_path_to_error::deserialize` finds them with `serde_yaml`.
pub uninterp spec fn yaml_tree(contents: Seq<char>) -> Result<
    Tree,
    (Seq<char>, Option<(u64, u64)>, Seq<char>),
>;

/// The tree that a parsed value holds.
pub uninterp spec fn tree_in(value: Value) -> Tree;

/// The model of a parse failure.
pub open spec fn failure_view(f: ParseFailure) -> (Seq<char>, Option<(u64, u64)>, Seq<char>) {
    (
        f.field@,
        match f.location {
            Some(at) => Some((at.line, at.column)),
            None => None,
        },
        f.message@,
    )
}

/// `serde_path_to_error::deserialize` on a `serde_yaml::Deserializer`: the parsed value of a text,
/// or where and why the text has none. It depends on the text alone.
#[verifier::external_body]
fn parse_value(contents: &str) -> (r: Result<Value, ParseFailure>)
    ensures
        yaml_tree(contents@) == match r {
            Ok(v) => Ok(tree_in(v)),
            Err(f) => Err(failure_view(f)),
        },
{
    let document = serde_yaml::Deserializer::from_str(contents);
    serde_path_to_error::deserialize(document).map_err(
        |e| ParseFailure {
            field: e.path().to_string(),
            location: e.inner().location().map(
                |at| Location { line: at.line() as u64, column: at.column() as u64 },
            ),
            message: e.inner().to_string(),
        },
    )
}

/// A parsed value on its surface: what it holds is kept as it is.
enum Layer {
    Null,
    Flag(bool),
    Whole(u64),
    Negative(i64),
    Float(String),
    Text(String),
    Items(VecDeque<Value>),
    Entries(VecDeque<(Value, Value)>),
    Tagged(String, Value),
}

/// The tree that a surface stands for.
spec fn layer_tree(layer: Layer) -> Tree {
    match layer {
        Layer::Null => Tree::Null,
        Layer::Flag(b) => Tree::Bool(b),
        Layer::Whole(u) => Tree::Number(Numeral::Unsigned(u as nat)),
        Layer::Negative(i) => Tree::Number(Numeral::Negative(i as int)),
        Layer::Float(text) => Tree::Number(Numeral::Float(text@)),
        Layer::Text(s) => Tree::Text(s@),
        Layer::Items(v) => Tree::Sequence(v@.map_values(|i: Value| tree_in(i))),
        Layer::Entries(m) => Tree::Mapping(
            m@.map_values(|e: (Value, Value)| (tree_in(e.0), tree_in(e.1))),
        ),
        Layer::Tagged(tag, inner) => Tree::Tagged(tag@, Box::new(tree_in(inner))),
    }
}

/// The variants of `serde_yaml::Value`, told apart one by one. The tree that the value holds is
/// put together from those of its parts: an integer is kept as it is, any other number as its
/// text, and a tag without the exclamation mark that its text begins with.
#[verifier::external_body]
fn layer_of(value: Value) -> (r: Layer)
    ensures
        tree_in(value) == layer_tree(r),
{
    match value {
        Value::Null => Layer::Null,
        Value::Bool(b) => Layer::Flag(b),
        Value::Number(n) => match (n.as_u64(), n.as_i64()) {
            (Some(u), _) => Layer::Whole(u),
            (_, Some(i)) => Layer::Negative(i),
            _ => Layer::Float(n.to_string()),
        },
        Value::String(s) => Layer::Text(s),
        Value::Sequence(v) => Layer::Items(v.into()),
        Value::Mapping(m) => Layer::Entries(m.into_iter().collect()),
        Value::Tagged(t) => Layer::Tagged(t.tag.to_string().split_off(1), t.value),
    }
}

/// A parsed value with all that it holds.
fn tree_of(value: Value) -> (r: Yaml)
    ensures
        r@ == tree_in(value),
    decreases tree_in(value),
{
    broadcast use lemma_tree_parts;

    let ghost whole = tree_in(value);
    match layer_of(value) {
        Layer::Null => Yaml::Null,
        Layer::Flag(b) => Yaml::Bool(b),
        Layer::Whole(u) => Yaml::Number(Number::Unsigned(u)),
        Layer::Negative(i) => Yaml::Number(Number::Negative(i)),
        Layer::Float(text) => Yaml::Number(Number::Float(text)),
        Layer::Text(s) => Yaml::String(s),
        Layer::Items(items) => {
            let ghost all = items@.map_values(|i: Value| tree_in(i));
            let mut left = items;
            let mut out: Vec<Yaml> = Vec::new();
            let n: usize = left.len();
            let mut k: usize = 0;
            assert(trees(out@) =~= all.take(0));
            while k < n
                invariant
                    k <= n,
                    n == all.len(),
                    whole == tree_in(value),
                    whole == Tree::Sequence(all),
                    left@.map_values(|i: Value| tree_in(i)) == all.skip(k as int),
                    trees(out@) == all.take(k as int),
                decreases n - k,
            {
                let ghost parts = left@.map_values(|i: Value| tree_in(i));
                assert(parts.len() == left@.len());
                assert(parts[0] == all[k as int]);
                if let Some(item) = left.pop_front() {
                    assert(tree_in(item) == all[k as int]);
                    assert(decreases_to!(whole => whole->Sequence_0));
                    assert(decreases_to!(whole->Sequence_0 => whole->Sequence_0[k as int]));
                    let ghost before = out@;
                    let shown = tree_of(item);
                    out.push(shown);
                    assert(trees(out@) =~= trees(before).push(shown@));
                }
                assert(left@.map_values(|i: Value| tree_in(i)) =~= parts.skip(1));
                assert(parts.skip(1) =~= all.skip(k + 1));
                assert(trees(out@) =~= all.take(k + 1));
                k += 1;
            }
            assert(all.take(n as int) =~= all);
            Yaml::Sequence(out)
        },
        Layer::Entries(entries) => {
            let ghost all = entries@.map_values(|e: (Value, Value)| (tree_in(e.0), tree_in(e.1)));
            let mut left = entries;
            let mut out: Vec<(Yaml, Yaml)> = Vec::new();
            let n: usize = left.len();
            let mut k: usize = 0;
            assert(entry_trees(out@) =~= all.take(0));
            while k < n
                invariant
                    k <= n,
                    n == all.len(),
                    whole == tree_in(value),
                    whole == Tree::Mapping(all),
                    left@.map_values(|e: (Value, Value)| (tree_in(e.0), tree_in(e.1))) == all.skip(
                        k as int,
                    ),
                    entry_trees(out@) == all.take(k as int),
                decreases n - k,
            {
                let ghost parts = left@.map_values(
                    |e: (Value, Value)| (tree_in(e.0), tree_in(e.1)),
                );
                assert(parts.len() == left@.len());
                assert(parts[0] == all[k as int]);
                if let Some((key, inner)) = left.pop_front() {
                    assert((tree_in(key), tree_in(inner)) == all[k as int]);
                    assert(decreases_to!(whole => whole->Mapping_0));
                    assert(decreases_to!(whole->Mapping_0 => whole->Mapping_0[k as int]));
                    let ghost part = whole->Mapping_0[k as int];
                    assert(decreases_to!(part => part.0));
                    assert(decreases_to!(part => part.1));
                    let ghost before = out@;
                    let name = tree_of(key);
                    let shown = tree_of(inner);
                    out.push((name, shown));
                    assert(entry_trees(out@) =~= entry_trees(before).push((name@, shown@)));
                }
                assert(left@.map_values(|e: (Value, Value)| (tree_in(e.0), tree_in(e.1)))
                    =~= parts.skip(1));
                assert(parts.skip(1) =~= all.skip(k + 1));
                assert(entry_trees(out@) =~= all.take(k + 1));
                k += 1;
            }
            assert(all.take(n as int) =~= all);
            Yaml::Mapping(out)
        },
        Layer::Tagged(tag, inner) => {
            assert(decreases_to!(whole => *whole->Tagged_1));
            Yaml::Tagged { tag, value: Box::new(tree_of(inner)) }
        },
    }
}

/// The tree that a text stands for.
pub fn parse_tree(contents: &str) -> (r: Result<Yaml, ParseFailure>)
    ensures
        yaml_tree(contents@) == match r {
            Ok(root) => Ok(root@),
            Err(f) => Err(failure_view(f)),
        },
{
    match parse_value(contents) {
        Ok(value) => Ok(tree_of(value)),
        Err(f) => Err(f),
    }
}

} // verus!
