//! Conversion of script results into configuration trees.
use vstd::prelude::*;
use vstd::string::*;
use crate::errors::DaemonError;
use crate::lua_value::{kind_of, LuaText, LuaValue};
use crate::text::{concat, concat3};
use crate::value::{
    entry_trees, lemma_key_index_unique, lemma_tree_parts, put, tree, trees, Number, Numeral,
    Tree, Yaml,
};

verus! {

/// Whether every key of a table is a positive integer.
pub open spec fn positive_keys(table: Seq<(LuaValue, LuaValue)>) -> bool {
    forall|j: int|
        0 <= j < table.len() ==> ((#[trigger] table[j]).0 matches LuaValue::Integer(i) && i > 0)
}

/// The greatest positive integer key, or zero.
pub open spec fn greatest_key(table: Seq<(LuaValue, LuaValue)>) -> int
    decreases table.len(),
{
    if table.len() == 0 {
        0
    } else {
        let rest = greatest_key(table.drop_last());
        match table.last().0 {
            LuaValue::Integer(i) => if i > rest {
                i as int
            } else {
                rest
            },
            _ => rest,
        }
    }
}

/// Whether a table is a list: it is empty, or its keys are the integers from one up to their
/// number.
pub open spec fn is_list(table: Seq<(LuaValue, LuaValue)>) -> bool {
    table.len() == 0 || (positive_keys(table) && greatest_key(table) == table.len())
}

/// A number of a script as a number of a configuration tree.
pub open spec fn integer_numeral(i: int) -> Numeral {
    if i < 0 {
        Numeral::Negative(i)
    } else {
        Numeral::Unsigned(i as nat)
    }
}

/// The configuration tree of a script value, or why there is none.
pub open spec fn yaml_of(v: LuaValue) -> Result<Tree, Seq<char>>
    decreases v, 0nat,
{
    match v {
        LuaValue::Nil => Ok(Tree::Null),
        LuaValue::Boolean(b) => Ok(Tree::Bool(b)),
        LuaValue::Integer(i) => Ok(Tree::Number(integer_numeral(i as int))),
        LuaValue::Number { notation, .. } => Ok(Tree::Number(Numeral::Float(notation@))),
        LuaValue::String(LuaText::Text(s)) => Ok(Tree::Text(s@)),
        LuaValue::String(LuaText::Bytes { error, .. }) => Err(
            "Invalid UTF-8 string: "@ + error@,
        ),
        LuaValue::Table(entries) => if is_list(entries@) {
            match list_of(entries@, entries@.len()) {
                Ok(items) => Ok(Tree::Sequence(items)),
                Err(e) => Err(e),
            }
        } else {
            match mapping_of(entries@, entries@.len()) {
                Ok(m) => Ok(Tree::Mapping(m)),
                Err(e) => Err(e),
            }
        },
        LuaValue::Other(t) => Err("Cannot convert Lua "@ + t@ + " to YAML"@),
    }
}

/// The trees of the values of the keys `1` to `n`; a missing one counts as nil.
pub open spec fn list_of(table: Seq<(LuaValue, LuaValue)>, n: nat) -> Result<Seq<Tree>, Seq<char>>
    decreases table, n,
{
    if n == 0 {
        Ok(seq![])
    } else {
        match list_of(table, (n - 1) as nat) {
            Err(e) => Err(e),
            Ok(items) => match element_of(table, n as int) {
                Ok(t) => Ok(items.push(t)),
                Err(e) => Err(e),
            },
        }
    }
}

/// The tree of the value of the key `i`; a missing one counts as nil.
pub open spec fn element_of(table: Seq<(LuaValue, LuaValue)>, i: int) -> Result<Tree, Seq<char>>
    decreases table, 0nat,
{
    let j = first_at(table, i);
    if 0 <= j < table.len() {
        yaml_of(table[j].1)
    } else {
        Ok(Tree::Null)
    }
}

/// The position of the first entry with the integer key `i`, or the number of entries.
pub open spec fn first_at(table: Seq<(LuaValue, LuaValue)>, i: int) -> int
    decreases table.len(),
{
    if table.len() == 0 || table[0].0 == LuaValue::Integer(i as i64) {
        0
    } else {
        1 + first_at(table.skip(1), i)
    }
}

/// The tree of a key: a text or an integer.
pub open spec fn key_of(k: LuaValue) -> Result<Tree, Seq<char>> {
    match k {
        LuaValue::String(LuaText::Text(s)) => Ok(Tree::Text(s@)),
        LuaValue::String(LuaText::Bytes { error, .. }) => Err("Invalid UTF-8 key: "@ + error@),
        LuaValue::Integer(i) => Ok(Tree::Number(integer_numeral(i as int))),
        _ => Err("Table key must be string or integer, got \""@ + kind_of(k) + "\""@),
    }
}

/// The entries of the first `n` entries of a table, in order.
pub open spec fn mapping_of(table: Seq<(LuaValue, LuaValue)>, n: nat) -> Result<
    Seq<(Tree, Tree)>,
    Seq<char>,
>
    decreases table, n,
    when n <= table.len()
{
    if n == 0 {
        Ok(seq![])
    } else {
        match mapping_of(table, (n - 1) as nat) {
            Err(e) => Err(e),
            Ok(m) => match key_of(table[n - 1].0) {
                Err(e) => Err(e),
                Ok(k) => match yaml_of(table[n - 1].1) {
                    Err(e) => Err(e),
                    Ok(t) => Ok(put(m, k, t)),
                },
            },
        }
    }
}

fn lua_error(path: &str, message: String) -> (r: DaemonError)
    ensures
        r matches DaemonError::LuaError { path: p, message: m } && p@ == path@ && m == message,
{
    DaemonError::LuaError { path: path.to_owned(), message }
}

/// A number of a configuration tree from an integer.
fn integer_number(i: i64) -> (r: Number)
    ensures
        r@ == integer_numeral(i as int),
{
    if i < 0 {
        Number::Negative(i)
    } else {
        Number::Unsigned(i as u64)
    }
}

/// Whether two keys are equal.
fn same_key(a: &Yaml, b: &Yaml) -> (r: bool)
    requires
        b@ is Text || b@ is Number && !(b@->Number_0 is Float),
    ensures
        r == (a@ == b@),
{
    match (a, b) {
        (Yaml::String(x), Yaml::String(y)) => crate::text::same(x.as_str(), y.as_str()),
        (Yaml::Number(Number::Unsigned(x)), Yaml::Number(Number::Unsigned(y))) => *x == *y,
        (Yaml::Number(Number::Negative(x)), Yaml::Number(Number::Negative(y))) => *x == *y,
        _ => false,
    }
}

/// Sets a key of a mapping.
fn put_entry(entries: &mut Vec<(Yaml, Yaml)>, key: Yaml, value: Yaml)
    requires
        key@ is Text || key@ is Number && !(key@->Number_0 is Float),
    ensures
        entry_trees(final(entries)@) == put(entry_trees(old(entries)@), key@, value@),
{
    let ghost before = entries@;
    let ghost all = entry_trees(entries@);
    let mut i: usize = 0;
    while i < entries.len()
        invariant
            i <= entries@.len(),
            entries@ == before,
            before == old(entries)@,
            all == entry_trees(before),
            key@ is Text || key@ is Number && !(key@->Number_0 is Float),
            forall|j: int| 0 <= j < i ==> (#[trigger] all[j]).0 != key@,
        decreases entries@.len() - i,
    {
        assert(all[i as int] == (tree(before[i as int].0), tree(before[i as int].1)));
        if same_key(&entries[i].0, &key) {
            proof {
                lemma_key_index_unique(all, key@, i as int);
            }
            entries[i].1 = value;
            assert(entry_trees(entries@) == all.update(i as int, (all[i as int].0, value@)));
            return;
        }
        i += 1;
    }
    proof {
        lemma_key_index_unique(all, key@, i as int);
    }
    entries.push((key, value));
    assert(entry_trees(entries@) == all.push((key@, value@)));
}

/// What `first_at` finds.
proof fn lemma_first_at(table: Seq<(LuaValue, LuaValue)>, i: int, k: int)
    requires
        0 <= k <= table.len(),
        forall|j: int| 0 <= j < k ==> (#[trigger] table[j]).0 != LuaValue::Integer(i as i64),
        k < table.len() ==> table[k].0 == LuaValue::Integer(i as i64),
    ensures
        first_at(table, i) == k,
    decreases k,
{
    if k > 0 {
        assert(table[0].0 != LuaValue::Integer(i as i64));
        assert forall|j: int| 0 <= j < k - 1 implies (#[trigger] table.skip(1)[j]).0
            != LuaValue::Integer(i as i64) by {
            assert(table.skip(1)[j] == table[j + 1]);
        }
        lemma_first_at(table.skip(1), i, k - 1);
    }
}

proof fn lemma_greatest_bounds(table: Seq<(LuaValue, LuaValue)>)
    ensures
        0 <= greatest_key(table) <= i64::MAX,
    decreases table.len(),
{
    if table.len() > 0 {
        lemma_greatest_bounds(table.drop_last());
    }
}

/// Whether a table is a list.
fn table_is_list(entries: &Vec<(LuaValue, LuaValue)>) -> (r: bool)
    ensures
        r == is_list(entries@),
{
    let mut all_positive: bool = true;
    let mut max: i64 = 0;
    let mut i: usize = 0;
    while i < entries.len()
        invariant
            i <= entries@.len(),
            all_positive == positive_keys(entries@.take(i as int)),
            max >= 0,
            max == greatest_key(entries@.take(i as int)),
        decreases entries@.len() - i,
    {
        let ghost now = entries@.take(i + 1);
        assert(now.drop_last() == entries@.take(i as int));
        assert(now[i as int] == entries@[i as int]);
        assert(positive_keys(now) <==> positive_keys(entries@.take(i as int)) && (
        entries@[i as int].0 matches LuaValue::Integer(k) && k > 0)) by {
            if positive_keys(now) {
                assert forall|j: int| 0 <= j < i implies ((#[trigger] entries@.take(
                    i as int,
                )[j]).0 matches LuaValue::Integer(k) && k > 0) by {
                    assert(now[j] == entries@.take(i as int)[j]);
                }
                assert(now[i as int].0 matches LuaValue::Integer(k) && k > 0);
            } else {
                let j = choose|j: int|
                    0 <= j < now.len() && !((#[trigger] now[j]).0 matches LuaValue::Integer(k) && k
                        > 0);
                if j < i {
                    assert(now[j] == entries@.take(i as int)[j]);
                }
            }
        }
        match &entries[i].0 {
            LuaValue::Integer(k) => {
                if *k <= 0 {
                    all_positive = false;
                }
                if *k > max {
                    max = *k;
                }
            },
            _ => {
                all_positive = false;
            },
        }
        i += 1;
    }
    assert(entries@.take(entries@.len() as int) == entries@);
    entries.len() == 0 || (all_positive && max as u64 == entries.len() as u64)
}

/// The configuration tree of a script value. A table whose keys are the integers from one up
/// to their number becomes a sequence, any other table a mapping.
pub fn lua_to_yaml(lua_value: &LuaValue, config_path: &str) -> (r: Result<Yaml, DaemonError>)
    ensures
        match r {
            Ok(v) => yaml_of(*lua_value) == Ok::<Tree, Seq<char>>(v@),
            Err(e) => e matches DaemonError::LuaError { path, message } && path@ == config_path@
                && yaml_of(*lua_value) == Err::<Tree, Seq<char>>(message@),
        },
    decreases lua_value,
{
    broadcast use lemma_tree_parts;

    match lua_value {
        LuaValue::Nil => Ok(Yaml::Null),
        LuaValue::Boolean(b) => Ok(Yaml::Bool(*b)),
        LuaValue::Integer(i) => Ok(Yaml::Number(integer_number(*i))),
        LuaValue::Number { notation, .. } => Ok(Yaml::Number(Number::Float(notation.clone()))),
        LuaValue::String(LuaText::Text(s)) => Ok(Yaml::String(s.clone())),
        LuaValue::String(LuaText::Bytes { error, .. }) => Err(
            lua_error(config_path, concat("Invalid UTF-8 string: ", error.as_str())),
        ),
        LuaValue::Table(entries) => {
            if table_is_list(entries) {
                let mut out: Vec<Yaml> = Vec::new();
                let mut n: usize = 0;
                assert(trees(out@) == Seq::<Tree>::empty());
                while n < entries.len()
                    invariant
                        n <= entries@.len(),
                        list_of(entries@, n as nat) == Ok::<Seq<Tree>, Seq<char>>(trees(out@)),
                        decreases_to!(lua_value => entries@),
                        *lua_value == LuaValue::Table(*entries),
                        is_list(entries@),
                    decreases entries@.len() - n,
                {
                    let key: u64 = n as u64 + 1;
                    let ghost before = out@;
                    let mut j: usize = 0;
                    proof {
                        lemma_greatest_bounds(entries@);
                    }
                    while j < entries.len() && !key_is(&entries[j].0, key)
                        invariant
                            j <= entries@.len(),
                            key == n + 1,
                            key <= i64::MAX,
                            forall|m: int|
                                0 <= m < j ==> (#[trigger] entries@[m]).0 != LuaValue::Integer(
                                    key as i64,
                                ),
                        decreases entries@.len() - j,
                    {
                        j += 1;
                    }
                    proof {
                        lemma_first_at(entries@, n + 1, j as int);
                    }
                    let item = if j < entries.len() {
                        assert(decreases_to!(lua_value => entries@[j as int].1));
                        match lua_to_yaml(&entries[j].1, config_path) {
                            Ok(v) => v,
                            Err(e) => {
                                proof {
                                    assert(element_of(entries@, n + 1) is Err);
                                    lemma_list_error(entries@, (n + 1) as nat, entries@.len());
                                }
                                return Err(e);
                            },
                        }
                    } else {
                        Yaml::Null
                    };
                    out.push(item);
                    assert(trees(out@) == trees(before).push(tree(item)));
                    n += 1;
                }
                Ok(Yaml::Sequence(out))
            } else {
                let mut out: Vec<(Yaml, Yaml)> = Vec::new();
                let mut n: usize = 0;
                assert(entry_trees(out@) == Seq::<(Tree, Tree)>::empty());
                while n < entries.len()
                    invariant
                        n <= entries@.len(),
                        mapping_of(entries@, n as nat) == Ok::<Seq<(Tree, Tree)>, Seq<char>>(
                            entry_trees(out@),
                        ),
                        decreases_to!(lua_value => entries@),
                        *lua_value == LuaValue::Table(*entries),
                        !is_list(entries@),
                    decreases entries@.len() - n,
                {
                    let key = match &entries[n].0 {
                        LuaValue::String(LuaText::Text(s)) => Yaml::String(s.clone()),
                        LuaValue::String(LuaText::Bytes { error, .. }) => {
                            proof {
                                lemma_mapping_error(entries@, (n + 1) as nat, entries@.len());
                            }
                            return Err(
                                lua_error(
                                    config_path,
                                    concat("Invalid UTF-8 key: ", error.as_str()),
                                ),
                            );
                        },
                        LuaValue::Integer(i) => Yaml::Number(integer_number(*i)),
                        _ => {
                            proof {
                                lemma_mapping_error(entries@, (n + 1) as nat, entries@.len());
                            }
                            return Err(
                                lua_error(
                                    config_path,
                                    concat3(
                                        "Table key must be string or integer, got \"",
                                        entries[n].0.kind().as_str(),
                                        "\"",
                                    ),
                                ),
                            );
                        },
                    };
                    assert(decreases_to!(lua_value => entries@[n as int].1));
                    let val = match lua_to_yaml(&entries[n].1, config_path) {
                        Ok(v) => v,
                        Err(e) => {
                            proof {
                                lemma_mapping_error(entries@, (n + 1) as nat, entries@.len());
                            }
                            return Err(e);
                        },
                    };
                    put_entry(&mut out, key, val);
                    n += 1;
                }
                Ok(Yaml::Mapping(out))
            }
        },
        LuaValue::Other(t) => Err(
            lua_error(config_path, concat3("Cannot convert Lua ", t.as_str(), " to YAML")),
        ),
    }
}

/// Whether a key is the integer `i`.
fn key_is(k: &LuaValue, i: u64) -> (r: bool)
    requires
        i <= i64::MAX,
    ensures
        r == (*k == LuaValue::Integer(i as i64)),
{
    match k {
        LuaValue::Integer(x) => *x == i as i64,
        _ => false,
    }
}

/// An error at one element is the error of the whole list.
proof fn lemma_list_error(table: Seq<(LuaValue, LuaValue)>, n: nat, m: nat)
    requires
        n <= m,
        list_of(table, n) is Err,
    ensures
        list_of(table, m) == list_of(table, n),
    decreases m,
{
    if n < m {
        lemma_list_error(table, n, (m - 1) as nat);
    }
}

/// An error at one entry is the error of the whole mapping.
proof fn lemma_mapping_error(table: Seq<(LuaValue, LuaValue)>, n: nat, m: nat)
    requires
        n <= m <= table.len(),
        mapping_of(table, n) is Err,
    ensures
        mapping_of(table, m) == mapping_of(table, n),
    decreases m,
{
    if n < m {
        lemma_mapping_error(table, n, (m - 1) as nat);
    }
}

/// Plain values are kept: nil is null, and truth values, integers and texts are themselves.
pub proof fn law_plain_values_are_kept(v: LuaValue, path: &str, r: Result<Yaml, DaemonError>)
    requires
        call_ensures(lua_to_yaml, (&v, path), r),
    ensures
        match v {
            LuaValue::Nil => r matches Ok(y) && y@ == Tree::Null,
            LuaValue::Boolean(b) => r matches Ok(y) && y@ == Tree::Bool(b),
            LuaValue::Integer(i) => r matches Ok(y) && y@ == Tree::Number(
                if i >= 0 {
                    Numeral::Unsigned(i as nat)
                } else {
                    Numeral::Negative(i as int)
                },
            ),
            LuaValue::Number { notation, .. } => r matches Ok(y) && y@ == Tree::Number(
                Numeral::Float(notation@),
            ),
            LuaValue::String(LuaText::Text(s)) => r matches Ok(y) && y@ == Tree::Text(s@),
            LuaValue::String(LuaText::Bytes { .. }) => r is Err,
            LuaValue::Table(entries) => entries@.len() == 0 ==> (r matches Ok(y) && y@
                == Tree::Sequence(seq![])),
            LuaValue::Other(_) => r is Err,
        },
{
    if let LuaValue::Table(entries) = v {
        if entries@.len() == 0 {
            assert(list_of(entries@, 0) == Ok::<Seq<Tree>, Seq<char>>(seq![]));
        }
    }
}

/// A table with the keys from one up to their number is the list of their values in that order.
pub proof fn law_numbered_table_is_a_list(
    entries: Vec<(LuaValue, LuaValue)>,
    path: &str,
    r: Result<Yaml, DaemonError>,
    k: int,
    item: Result<Yaml, DaemonError>,
)
    requires
        call_ensures(lua_to_yaml, (&LuaValue::Table(entries), path), r),
        forall|i: int|
            0 <= i < entries@.len() ==> (#[trigger] entries@[i]).0 == LuaValue::Integer(
                (i + 1) as i64,
            ),
        entries@.len() < i64::MAX,
        0 <= k < entries@.len(),
        call_ensures(lua_to_yaml, (&entries@[k].1, path), item),
    ensures
        item is Err ==> r is Err,
        r matches Ok(y) ==> (y@ matches Tree::Sequence(items) && items.len() == entries@.len()
            && item is Ok && items[k] == item->Ok_0@),
{
    let table = entries@;
    lemma_greatest(table, table.len());
    assert(table.take(table.len() as int) == table);
    assert(is_list(table));
    lemma_list_element(table, table.len(), k);
    lemma_numbered_at(table, k, 0);
    assert(table.skip(0) == table);
}

/// The greatest key of a numbered table is its number of entries.
proof fn lemma_greatest(table: Seq<(LuaValue, LuaValue)>, n: nat)
    requires
        n <= table.len(),
        table.len() < i64::MAX,
        forall|i: int|
            0 <= i < table.len() ==> (#[trigger] table[i]).0 == LuaValue::Integer((i + 1) as i64),
    ensures
        greatest_key(table.take(n as int)) == n,
    decreases n,
{
    if n > 0 {
        lemma_greatest(table, (n - 1) as nat);
        assert(table.take(n as int).drop_last() == table.take(n - 1));
        assert(table.take(n as int).last() == table[n - 1]);
    }
}

/// What a list of values holds at a place.
proof fn lemma_list_element(table: Seq<(LuaValue, LuaValue)>, n: nat, k: int)
    requires
        0 <= k < n,
    ensures
        list_of(table, n) matches Ok(items) ==> items.len() == n && (element_of(
            table,
            k + 1,
        ) matches Ok(t) && items[k] == t),
        element_of(table, k + 1) is Err ==> list_of(table, n) is Err,
    decreases n,
{
    if k < n - 1 {
        lemma_list_element(table, (n - 1) as nat, k);
    } else {
        lemma_list_len(table, (n - 1) as nat);
    }
}

/// A list has as many items as were asked for.
proof fn lemma_list_len(table: Seq<(LuaValue, LuaValue)>, n: nat)
    ensures
        list_of(table, n) matches Ok(items) ==> items.len() == n,
    decreases n,
{
    if n > 0 {
        lemma_list_len(table, (n - 1) as nat);
    }
}

/// Where the key of an entry of a numbered table is first found.
proof fn lemma_numbered_at(table: Seq<(LuaValue, LuaValue)>, k: int, from: int)
    requires
        0 <= from <= k < table.len(),
        table.len() < i64::MAX,
        forall|i: int|
            0 <= i < table.len() ==> (#[trigger] table[i]).0 == LuaValue::Integer((i + 1) as i64),
    ensures
        first_at(table.skip(from), k + 1) == k - from,
    decreases k - from,
{
    let rest = table.skip(from);
    assert(rest[0] == table[from]);
    if from < k {
        lemma_numbered_at(table, k, from + 1);
        assert(rest.skip(1) == table.skip(from + 1));
    }
}

/// A table with a text for a key is a mapping, in which the key has its value.
pub proof fn law_named_table_is_a_mapping(
    key: String,
    value: LuaValue,
    entries: Vec<(LuaValue, LuaValue)>,
    path: &str,
    r: Result<Yaml, DaemonError>,
    item: Result<Yaml, DaemonError>,
)
    requires
        call_ensures(lua_to_yaml, (&LuaValue::Table(entries), path), r),
        entries@ == seq![(LuaValue::String(LuaText::Text(key)), value)],
        call_ensures(lua_to_yaml, (&value, path), item),
    ensures
        item is Err ==> r is Err,
        item matches Ok(v) ==> (r matches Ok(y) && y@ == Tree::Mapping(
            seq![(Tree::Text(key@), v@)],
        )),
{
    let table = entries@;
    assert(table[0].0 is String);
    assert(!is_list(table));
    reveal_with_fuel(mapping_of, 2);
    assert(mapping_of(table, 0) == Ok::<Seq<(Tree, Tree)>, Seq<char>>(seq![]));
    if let Ok(v) = item {
        let none = Seq::<(Tree, Tree)>::empty();
        assert(put(none, Tree::Text(key@), v@) =~= seq![(Tree::Text(key@), v@)]);
    }
}

} // verus!
