//! Plain values out of configuration trees.
use vstd::prelude::*;
use vstd::string::*;
use crate::config::config_value::ConfigValue;
use crate::config::environment::{text_field, text_fields, TextField};
use crate::config::expr::{classified, DynamicExpr};
use crate::number::{format_i64, format_u64};
use crate::text::{concat, concat3, concat5, quote, quoted};
use crate::value::{
    bool_text, format_bool, lemma_tree_parts, numeral_text, trees, untagged, Numeral, Tree, Yaml,
    Number,
};

verus! {

/// What a tree without tags is called where something else is expected.
pub open spec fn called(t: Tree) -> Seq<char> {
    match t {
        Tree::Null => "unit value"@,
        Tree::Bool(b) => "boolean `"@ + bool_text(b) + "`"@,
        Tree::Number(Numeral::Float(s)) => "floating point `"@ + s + "`"@,
        Tree::Number(n) => "integer `"@ + numeral_text(n) + "`"@,
        Tree::Text(s) => "string "@ + quoted(s),
        Tree::Sequence(_) => "sequence"@,
        Tree::Mapping(_) => "map"@,
        Tree::Tagged(..) => "enum"@,
    }
}

/// That a tree is not of the expected kind.
pub open spec fn wrong_kind(t: Tree, expected: Seq<char>) -> Seq<char> {
    "invalid type: "@ + called(untagged(t)) + ", expected "@ + expected
}

/// The text that a tree stands for.
pub open spec fn text_in(t: Tree) -> Result<Seq<char>, Seq<char>> {
    match untagged(t) {
        Tree::Text(s) => Ok(s),
        _ => Err(wrong_kind(t, "a string"@)),
    }
}

/// The text that a tree stands for, if it is not null.
pub open spec fn opt_text_in(t: Tree) -> Result<Option<Seq<char>>, Seq<char>> {
    match t {
        Tree::Null => Ok(None),
        _ => match text_in(t) {
            Ok(s) => Ok(Some(s)),
            Err(e) => Err(e),
        },
    }
}

/// The truth value that a tree stands for, if it is not null.
pub open spec fn opt_flag_in(t: Tree) -> Result<Option<bool>, Seq<char>> {
    match (t, untagged(t)) {
        (Tree::Null, _) => Ok(None),
        (_, Tree::Bool(b)) => Ok(Some(b)),
        _ => Err(wrong_kind(t, "a boolean"@)),
    }
}

/// The size that a tree stands for, if it is not null.
pub open spec fn opt_size_in(t: Tree) -> Result<Option<usize>, Seq<char>> {
    match (t, untagged(t)) {
        (Tree::Null, _) => Ok(None),
        (_, Tree::Number(Numeral::Unsigned(n))) => if n <= usize::MAX {
            Ok(Some(n as usize))
        } else {
            Err("invalid value: "@ + called(untagged(t)) + ", expected "@ + "usize"@)
        },
        (_, Tree::Number(Numeral::Negative(_))) => Err(
            "invalid value: "@ + called(untagged(t)) + ", expected "@ + "usize"@,
        ),
        _ => Err(wrong_kind(t, "usize"@)),
    }
}

/// A known or computed text.
pub open spec fn item_in(t: Tree) -> Result<TextField, Seq<char>> {
    match classified(t) {
        Some(c) => Ok(TextField::Computed(c)),
        None => match text_in(t) {
            Ok(s) => Ok(TextField::Known(s)),
            Err(e) => Err(e),
        },
    }
}

/// The first `n` known or computed texts of a list; the first that is none counts.
pub open spec fn items_in(items: Seq<Tree>, n: nat) -> Result<Seq<TextField>, Seq<char>>
    decreases n,
{
    if n == 0 || n > items.len() {
        Ok(seq![])
    } else {
        match items_in(items, (n - 1) as nat) {
            Err(e) => Err(e),
            Ok(done) => match item_in(items[n - 1]) {
                Ok(f) => Ok(done.push(f)),
                Err(e) => Err(e),
            },
        }
    }
}

/// The list of texts that a tree stands for; null stands for none.
pub open spec fn text_list_in(t: Tree) -> Result<Seq<TextField>, Seq<char>> {
    match untagged(t) {
        Tree::Sequence(items) => items_in(items, items.len()),
        Tree::Null => Ok(seq![]),
        _ => Err(wrong_kind(t, "a sequence"@)),
    }
}

proof fn lemma_items_stop(items: Seq<Tree>, n: nat)
    requires
        n <= items.len(),
        items_in(items, n) is Err,
    ensures
        items_in(items, items.len()) == items_in(items, n),
    decreases items.len() - n,
{
    if n < items.len() {
        lemma_items_stop(items, n + 1);
    }
}

/// What a tree without tags is called.
pub(crate) fn call(v: &Yaml) -> (r: String)
    ensures
        r@ == called(v@),
{
    broadcast use lemma_tree_parts;

    match v {
        Yaml::Null => "unit value".to_owned(),
        Yaml::Bool(b) => concat3("boolean `", format_bool(*b).as_str(), "`"),
        Yaml::Number(n) => match n {
            Number::Float(s) => concat3("floating point `", s.as_str(), "`"),
            Number::Unsigned(k) => concat3("integer `", format_u64(*k).as_str(), "`"),
            Number::Negative(k) => concat3("integer `", format_i64(*k).as_str(), "`"),
        },
        Yaml::String(s) => concat("string ", quote(s.as_str()).as_str()),
        Yaml::Sequence(_) => "sequence".to_owned(),
        Yaml::Mapping(_) => "map".to_owned(),
        Yaml::Tagged { .. } => "enum".to_owned(),
    }
}

/// That a value is not what is expected.
pub(crate) fn mismatch(what: &str, v: &Yaml, expected: &str) -> (r: String)
    ensures
        r@ == what@ + called(untagged(v@)) + ", expected "@ + expected@,
{
    let text = concat5(what, call(v.untag()).as_str(), ", expected ", expected, "");
    proof {
        reveal_strlit("");
        assert(text@ =~= what@ + called(untagged(v@)) + ", expected "@ + expected@);
    }
    text
}

/// The text that a value stands for.
pub fn read_text(v: &Yaml) -> (r: Result<String, String>)
    ensures
        match r {
            Ok(s) => text_in(v@) == Ok::<Seq<char>, Seq<char>>(s@),
            Err(e) => text_in(v@) == Err::<Seq<char>, Seq<char>>(e@),
        },
{
    match v.as_str() {
        Some(s) => Ok(s.to_owned()),
        None => Err(mismatch("invalid type: ", v, "a string")),
    }
}

/// Whether an optional text is the one given.
pub open spec fn opt_text_is(m: Result<Option<Seq<char>>, Seq<char>>, r: Result<Option<String>, String>) -> bool {
    match r {
        Ok(Some(s)) => m == Ok::<Option<Seq<char>>, Seq<char>>(Some(s@)),
        Ok(None) => m == Ok::<Option<Seq<char>>, Seq<char>>(None),
        Err(e) => m == Err::<Option<Seq<char>>, Seq<char>>(e@),
    }
}

/// The text that a value stands for, if it is not null.
pub fn read_opt_text(v: &Yaml) -> (r: Result<Option<String>, String>)
    ensures
        opt_text_is(opt_text_in(v@), r),
{
    match v {
        Yaml::Null => Ok(None),
        _ => match read_text(v) {
            Ok(s) => Ok(Some(s)),
            Err(e) => Err(e),
        },
    }
}

/// The truth value that a value stands for, if it is not null.
pub fn read_opt_flag(v: &Yaml) -> (r: Result<Option<bool>, String>)
    ensures
        match r {
            Ok(b) => opt_flag_in(v@) == Ok::<Option<bool>, Seq<char>>(b),
            Err(e) => opt_flag_in(v@) == Err::<Option<bool>, Seq<char>>(e@),
        },
{
    match v {
        Yaml::Null => Ok(None),
        _ => match v.untag() {
            Yaml::Bool(b) => Ok(Some(*b)),
            _ => Err(mismatch("invalid type: ", v, "a boolean")),
        },
    }
}

/// The size that a value stands for, if it is not null.
pub fn read_opt_size(v: &Yaml) -> (r: Result<Option<usize>, String>)
    ensures
        match r {
            Ok(n) => opt_size_in(v@) == Ok::<Option<usize>, Seq<char>>(n),
            Err(e) => opt_size_in(v@) == Err::<Option<usize>, Seq<char>>(e@),
        },
{
    match v {
        Yaml::Null => Ok(None),
        _ => match v.untag() {
            Yaml::Number(Number::Unsigned(n)) => if *n <= usize::MAX as u64 {
                Ok(Some(*n as usize))
            } else {
                Err(mismatch("invalid value: ", v, "usize"))
            },
            Yaml::Number(Number::Negative(_)) => Err(mismatch("invalid value: ", v, "usize")),
            _ => Err(mismatch("invalid type: ", v, "usize")),
        },
    }
}

/// A known or computed text.
pub fn read_item(v: &Yaml) -> (r: Result<ConfigValue<String>, String>)
    ensures
        match r {
            Ok(f) => item_in(v@) == Ok::<TextField, Seq<char>>(text_field(f)),
            Err(e) => item_in(v@) == Err::<TextField, Seq<char>>(e@),
        },
{
    match DynamicExpr::classify(v) {
        Some(e) => Ok(ConfigValue::Dynamic(Box::new(e))),
        None => match read_text(v) {
            Ok(s) => Ok(ConfigValue::Static(s)),
            Err(e) => Err(e),
        },
    }
}

/// The list of texts that a value stands for; null stands for none.
pub fn read_text_list(v: &Yaml) -> (r: Result<Vec<ConfigValue<String>>, String>)
    ensures
        match r {
            Ok(list) => text_list_in(v@) == Ok::<Seq<TextField>, Seq<char>>(text_fields(list@)),
            Err(e) => text_list_in(v@) == Err::<Seq<TextField>, Seq<char>>(e@),
        },
{
    broadcast use lemma_tree_parts;

    match v.untag() {
        Yaml::Sequence(items) => {
            let ghost all = trees(items@);
            let mut out: Vec<ConfigValue<String>> = Vec::new();
            let mut i: usize = 0;
            assert(text_fields(out@) == Seq::<TextField>::empty());
            while i < items.len()
                invariant
                    i <= items@.len(),
                    all == trees(items@),
                    untagged(v@) == Tree::Sequence(all),
                    items_in(all, i as nat) == Ok::<Seq<TextField>, Seq<char>>(text_fields(out@)),
                decreases items@.len() - i,
            {
                let ghost before = text_fields(out@);
                assert(all[i as int] == items@[i as int]@);
                match read_item(&items[i]) {
                    Ok(f) => {
                        out.push(f);
                        assert(text_fields(out@) == before.push(text_field(f)));
                    },
                    Err(e) => {
                        proof {
                            lemma_items_stop(all, (i + 1) as nat);
                        }
                        return Err(e);
                    },
                }
                i += 1;
            }
            Ok(out)
        },
        Yaml::Null => {
            let r: Vec<ConfigValue<String>> = Vec::new();
            assert(text_fields(r@) == Seq::<TextField>::empty());
            Ok(r)
        },
        _ => Err(mismatch("invalid type: ", v, "a sequence")),
    }
}

/// What the plain kinds of values are read as: a text as a text, a truth value as a truth value, a
/// number as a size, and null as nothing; any other kind is refused.
pub proof fn law_plain_values_are_read(
    v: Yaml,
    text: Result<String, String>,
    opt: Result<Option<String>, String>,
    flag: Result<Option<bool>, String>,
    size: Result<Option<usize>, String>,
)
    requires
        call_ensures(read_text, (&v,), text),
        call_ensures(read_opt_text, (&v,), opt),
        call_ensures(read_opt_flag, (&v,), flag),
        call_ensures(read_opt_size, (&v,), size),
    ensures
        match v {
            Yaml::Null => text is Err && opt == Ok::<Option<String>, String>(None) && flag == Ok::<
                Option<bool>,
                String,
            >(None) && size == Ok::<Option<usize>, String>(None),
            Yaml::Bool(b) => text is Err && opt is Err && flag == Ok::<Option<bool>, String>(Some(b))
                && size is Err,
            Yaml::Number(n) => text is Err && opt is Err && flag is Err && match n {
                Number::Unsigned(k) => if k <= usize::MAX {
                    size == Ok::<Option<usize>, String>(Some(k as usize))
                } else {
                    size is Err
                },
                _ => size is Err,
            },
            Yaml::String(s) => (text matches Ok(t) && t@ == s@) && (opt matches Ok(Some(t)) && t@
                == s@) && flag is Err && size is Err,
            Yaml::Sequence(_) => text is Err && opt is Err && flag is Err && size is Err,
            Yaml::Mapping(_) => text is Err && opt is Err && flag is Err && size is Err,
            Yaml::Tagged { .. } => true,
        },
{
    broadcast use lemma_tree_parts;

}

/// A list of texts without marks is read as it is written, and null as an empty list.
pub proof fn law_text_lists_are_read(
    items: Vec<Yaml>,
    r: Result<Vec<ConfigValue<String>>, String>,
    none: Result<Vec<ConfigValue<String>>, String>,
    k: int,
)
    requires
        call_ensures(read_text_list, (&Yaml::Sequence(items),), r),
        call_ensures(read_text_list, (&Yaml::Null,), none),
        forall|i: int|
            0 <= i < items@.len() ==> ((#[trigger] items@[i]) matches Yaml::String(s)
                && !crate::text::occurs(s@, "${{"@)),
        0 <= k < items@.len(),
    ensures
        r is Ok,
        r->Ok_0@.len() == items@.len(),
        r->Ok_0@[k] matches ConfigValue::Static(t) && t@ == items@[k]->String_0@,
        none is Ok,
        none->Ok_0@.len() == 0,
{
    broadcast use lemma_tree_parts;

    let v = Yaml::Sequence(items);
    assert(v@ == Tree::Sequence(crate::value::trees(items@)));
    let list = crate::value::trees(items@);
    assert forall|i: int| 0 <= i < list.len() implies (#[trigger] list[i]) == Tree::Text(
        items@[i]->String_0@,
    ) && !crate::text::occurs(items@[i]->String_0@, "${{"@) by {
        assert(items@[i] is String);
        assert(list[i] == items@[i]@);
    }
    lemma_known_items(list, list.len());
    let fields = text_fields(r->Ok_0@);
    assert(fields.len() == r->Ok_0@.len());
    assert(fields[k] == text_field(r->Ok_0@[k]));
    assert(text_fields(none->Ok_0@).len() == none->Ok_0@.len());
}

/// Texts without marks are known.
proof fn lemma_known_items(items: Seq<Tree>, n: nat)
    requires
        n <= items.len(),
        forall|i: int|
            0 <= i < items.len() ==> ((#[trigger] items[i]) matches Tree::Text(s)
                && !crate::text::occurs(s, "${{"@)),
    ensures
        items_in(items, n) matches Ok(f) && f.len() == n && forall|i: int|
            0 <= i < n ==> #[trigger] f[i] == TextField::Known(items[i]->Text_0),
    decreases n,
{
    if n > 0 {
        lemma_known_items(items, (n - 1) as nat);
        assert(items[n - 1] is Text);
    }
}

} // verus!
