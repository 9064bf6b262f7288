//! Environment variables.
use vstd::prelude::*;
use crate::called::given;
use crate::errors::DaemonError;
use crate::name_map::NameMap;
use crate::text::{lemma_span_before, lemma_span_unique, split_once, split_once_at, views};

verus! {

/// Variables after the entries `NAME=value` of a list. A later entry replaces an earlier one;
/// what is no such entry is left out.
pub open spec fn with_entries(env: Map<Seq<char>, Seq<char>>, entries: Seq<Seq<char>>) -> Map<
    Seq<char>,
    Seq<char>,
>
    decreases entries.len(),
{
    if entries.len() == 0 {
        env
    } else {
        let before = with_entries(env, entries.drop_last());
        match split_once_at(entries.last(), '=') {
            Some((name, value)) => before.insert(name, value),
            None => before,
        }
    }
}

/// The texts of a map.
pub open spec fn texts(m: Map<Seq<char>, String>) -> Map<Seq<char>, Seq<char>> {
    Map::new(|k: Seq<char>| m.contains_key(k), |k: Seq<char>| m[k]@)
}

/// Adds the entries `NAME=value` of a list.
pub fn insert_env_entries(env: &mut NameMap<String>, entries: &Vec<String>)
    ensures
        texts(final(env)@) == with_entries(texts(old(env)@), views(entries@)),
{
    let ghost was = texts(env@);
    let ghost list = views(entries@);
    let mut i: usize = 0;
    while i < entries.len()
        invariant
            i <= entries@.len(),
            was == texts(old(env)@),
            list == views(entries@),
            texts(env@) == with_entries(was, list.take(i as int)),
        decreases entries@.len() - i,
    {
        let ghost before = texts(env@);
        proof {
            assert(list.take(i + 1).drop_last() == list.take(i as int));
            assert(list.take(i + 1).last() == entries@[i as int]@);
        }
        if let Some((name, value)) = split_once(entries[i].as_str(), '=') {
            let ghost k = name@;
            let ghost v = value@;
            env.insert(name, value);
            assert(texts(env@) =~= before.insert(k, v));
        }
        i += 1;
    }
    assert(list.take(i as int) == list);
}

/// The entries that `dotenvy::from_read_iter` reads out of a file without a dollar sign.
pub uninterp spec fn env_items(contents: Seq<u8>) -> Seq<Result<(Seq<char>, Seq<char>), Seq<char>>>;

/// The texts of an entry.
pub open spec fn item_view(item: Result<(String, String), String>) -> Result<
    (Seq<char>, Seq<char>),
    Seq<char>,
> {
    match item {
        Ok((name, value)) => Ok((name@, value@)),
        Err(e) => Err(e@),
    }
}

/// Whether a file has no dollar sign, so that no value refers to a variable.
pub open spec fn plain_bytes(contents: Seq<u8>) -> bool {
    forall|i: int| 0 <= i < contents.len() ==> #[trigger] contents[i] != 36
}

/// Whether these are the entries that reading a file of these contents gave.
pub closed spec fn items_given(
    items: Seq<Result<(String, String), String>>,
    contents: Seq<u8>,
) -> bool {
    exists|data: &Vec<u8>, got: Vec<Result<(String, String), String>>| #[trigger]
        call_ensures(read_env_items, (data,), got) && data@ == contents && got@ == items
}

/// Whether these may be the entries of a file: they are what reading it gave, and they depend on
/// the file alone where it has no dollar sign.
pub open spec fn read_from(
    items: Seq<Result<(String, String), String>>,
    contents: Seq<u8>,
) -> bool {
    &&& items_given(items, contents)
    &&& plain_bytes(contents) ==> items.map_values(
        |i: Result<(String, String), String>| item_view(i),
    ) == env_items(contents)
}

/// The entries of an environment file, as `dotenvy::from_read_iter` reads them. The claim is that
/// the entries of a file without a dollar sign depend on the file alone. Of other files nothing is
/// claimed: what a value refers to is looked up in the environment of the process.
#[verifier::external_body]
fn read_env_items(contents: &Vec<u8>) -> (r: Vec<Result<(String, String), String>>)
    ensures
        plain_bytes(contents@) ==> r@.map_values(
            |i: Result<(String, String), String>| item_view(i),
        ) == env_items(contents@),
{
    dotenvy::from_read_iter(contents.as_slice()).map(|i| i.map_err(|e| e.to_string())).collect()
}

/// The entries of an environment file.
pub(crate) fn env_entries(contents: &Vec<u8>) -> (r: Vec<Result<(String, String), String>>)
    ensures
        read_from(r@, contents@),
{
    let r = given(read_env_items, contents);
    assert(items_given(r@, contents@));
    r
}

/// The variables of the first `n` items, or the first error among them.
pub open spec fn env_of(items: Seq<Result<(String, String), String>>, n: nat) -> Result<
    Map<Seq<char>, Seq<char>>,
    Seq<char>,
>
    decreases n,
{
    if n == 0 {
        Ok(Map::empty())
    } else {
        match env_of(items, (n - 1) as nat) {
            Err(e) => Err(e),
            Ok(m) => match items[n - 1] {
                Ok((name, value)) => Ok(m.insert(name@, value@)),
                Err(e) => Err(e@),
            },
        }
    }
}

proof fn lemma_env_err(
    items: Seq<Result<(String, String), String>>,
    k: nat,
    n: nat,
    e: Seq<char>,
)
    requires
        k <= n,
        env_of(items, k) == Err::<Map<Seq<char>, Seq<char>>, Seq<char>>(e),
    ensures
        env_of(items, n) == Err::<Map<Seq<char>, Seq<char>>, Seq<char>>(e),
    decreases n - k,
{
    if k < n {
        lemma_env_err(items, k + 1, n, e);
    }
}

/// Whether this is what the items of an environment file lead to.
pub open spec fn env_result(
    path: Seq<char>,
    items: Seq<Result<(String, String), String>>,
    r: Result<NameMap<String>, DaemonError>,
) -> bool {
    match r {
        Ok(env) => env_of(items, items.len()) == Ok::<Map<Seq<char>, Seq<char>>, Seq<char>>(
            texts(env@),
        ),
        Err(DaemonError::EnvFileParse { path: p, source }) => p@ == path && env_of(
            items,
            items.len(),
        ) == Err::<Map<Seq<char>, Seq<char>>, Seq<char>>(source@),
        Err(_) => false,
    }
}

/// The variables of an environment file, given its items. The first error counts.
pub fn collect_env(path: &str, items: Vec<Result<(String, String), String>>) -> (r: Result<
    NameMap<String>,
    DaemonError,
>)
    ensures
        env_result(path@, items@, r),
{
    let mut env: NameMap<String> = NameMap::new();
    let mut i: usize = 0;
    assert(texts(env@) =~= Map::<Seq<char>, Seq<char>>::empty());
    while i < items.len()
        invariant
            i <= items@.len(),
            env_of(items@, i as nat) == Ok::<Map<Seq<char>, Seq<char>>, Seq<char>>(texts(env@)),
        decreases items@.len() - i,
    {
        let ghost before = texts(env@);
        match &items[i] {
            Ok(pair) => {
                env.insert(pair.0.clone(), pair.1.clone());
                assert(texts(env@) =~= before.insert(pair.0@, pair.1@));
            },
            Err(e) => {
                proof {
                    lemma_env_err(items@, (i + 1) as nat, items@.len(), e@);
                }
                return Err(
                    DaemonError::EnvFileParse { path: path.to_owned(), source: e.clone() },
                );
            },
        }
        i += 1;
    }
    Ok(env)
}

/// The variables of an environment file, given its contents; without contents there is no such
/// file.
pub fn load_env_file(path: &str, contents: Option<&Vec<u8>>) -> (r: Result<
    NameMap<String>,
    DaemonError,
>)
    ensures
        match contents {
            None => r matches Err(DaemonError::EnvFileNotFound(p)) && p@ == path@,
            Some(data) => exists|items: Seq<Result<(String, String), String>>| #[trigger]
                env_result(path@, items, r) && read_from(items, data@),
        },
{
    match contents {
        None => Err(DaemonError::EnvFileNotFound(path.to_owned())),
        Some(data) => {
            let items = env_entries(data);
            let ghost list = items@;
            let r = collect_env(path, items);
            assert(env_result(path@, list, r));
            r
        },
    }
}

/// What an entry is split into at its first equals sign.
pub proof fn lemma_split_entry(name: Seq<char>, value: Seq<char>)
    requires
        forall|j: int| 0 <= j < name.len() ==> #[trigger] name[j] != '=',
    ensures
        split_once_at(name + seq!['='] + value, '=') == Some((name, value)),
{
    let s = name + seq!['='] + value;
    assert forall|j: int| 0 <= j < name.len() implies #[trigger] s[j] != '=' by {
        assert(s[j] == name[j]);
    }
    assert(s[name.len() as int] == '=');
    lemma_span_unique(s, '=', name.len() as int);
    assert(s.take(name.len() as int) == name);
    assert(s.skip(name.len() as int + 1) == value);
}

/// The value of a name is that of the last entry with the name, if there is one.
pub proof fn lemma_last_entry_wins(
    env: Map<Seq<char>, Seq<char>>,
    entries: Seq<Seq<char>>,
    name: Seq<char>,
    k: int,
)
    requires
        -1 <= k < entries.len(),
        k >= 0 ==> (split_once_at(entries[k], '=') matches Some((n, _)) && n == name),
        forall|j: int|
            k < j < entries.len() ==> !(split_once_at(#[trigger] entries[j], '=') matches Some((n, _))
                && n == name),
    ensures
        k >= 0 ==> with_entries(env, entries).contains_key(name) && with_entries(env, entries)[name]
            == (split_once_at(entries[k], '=')->0).1,
        k < 0 ==> (with_entries(env, entries).contains_key(name) <==> env.contains_key(name)),
        k < 0 && env.contains_key(name) ==> with_entries(env, entries)[name] == env[name],
    decreases entries.len(),
{
    if entries.len() > 0 && k < entries.len() - 1 {
        let front = entries.drop_last();
        assert forall|j: int| k < j < front.len() implies !(split_once_at(
            #[trigger] front[j],
            '=',
        ) matches Some((n, _)) && n == name) by {
            assert(front[j] == entries[j]);
        }
        lemma_last_entry_wins(env, front, name, k);
        assert(!(split_once_at(entries[entries.len() - 1], '=') matches Some((n, _)) && n == name));
    }
}

/// An entry `NAME=value` sets the variable to what stands behind the first equals sign, unless a
/// later entry sets it too. Names that no entry has keep their values.
pub proof fn law_last_entry_counts(
    env: &mut NameMap<String>,
    entries: Vec<String>,
    name: Seq<char>,
    value: Seq<char>,
    k: int,
)
    requires
        call_ensures(insert_env_entries, (env, &entries), ()),
        forall|j: int| 0 <= j < name.len() ==> #[trigger] name[j] != '=',
        -1 <= k < entries@.len(),
        k >= 0 ==> entries@[k]@ == name + seq!['='] + value,
        forall|j: int|
            k < j < entries@.len() ==> !((name + seq!['=']).is_prefix_of(
                (#[trigger] entries@[j])@,
            )),
    ensures
        k >= 0 ==> final(env)@.contains_key(name) && final(env)@[name]@ == value,
        k < 0 ==> (final(env)@.contains_key(name) <==> old(env)@.contains_key(name)),
        k < 0 && old(env)@.contains_key(name) ==> final(env)@[name]@ == old(env)@[name]@,
{
    let list = views(entries@);
    if k >= 0 {
        lemma_split_entry(name, value);
        assert(list[k] == entries@[k]@);
    }
    assert forall|j: int| k < j < list.len() implies !(split_once_at(
        #[trigger] list[j],
        '=',
    ) matches Some((n, _)) && n == name) by {
        assert(list[j] == entries@[j]@);
        if let Some((n, v)) = split_once_at(list[j], '=') {
            if n == name {
                lemma_split_parts(list[j], n, v);
                assert((name + seq!['=']).is_prefix_of(list[j]));
            }
        }
    }
    lemma_last_entry_wins(texts(old(env)@), list, name, k);
    let after = texts(final(env)@);
    assert(after.contains_key(name) <==> final(env)@.contains_key(name));
    assert(texts(old(env)@).contains_key(name) <==> old(env)@.contains_key(name));
}

/// What a text is split into stands in it.
pub proof fn lemma_split_parts(s: Seq<char>, n: Seq<char>, v: Seq<char>)
    requires
        split_once_at(s, '=') == Some((n, v)),
    ensures
        s == n + seq!['='] + v,
        (n + seq!['=']).is_prefix_of(s),
{
    lemma_span_before(s, '=');
    assert(s =~= n + seq!['='] + v);
    assert((n + seq!['=']).is_prefix_of(s));
}

/// The variables of a file are those of its items, where the last of a name counts; an item that
/// cannot be read is the error.
pub proof fn law_file_variables(
    path: &str,
    items: Vec<Result<(String, String), String>>,
    r: Result<NameMap<String>, DaemonError>,
    k: int,
)
    requires
        call_ensures(collect_env, (path, items), r),
        0 <= k < items@.len(),
    ensures
        items@[k] is Err ==> r is Err,
        r matches Err(e) ==> (e matches DaemonError::EnvFileParse { path: p, .. } && p@ == path@),
        r is Ok ==> (items@[k] matches Ok((name, value)) && r->Ok_0@.contains_key(name@) && ((
        forall|j: int|
            k < j < items@.len() ==> (#[trigger] items@[j])->Ok_0.0@ != name@)
            ==> r->Ok_0@[name@]@ == value@)),
{
    lemma_items(items@, items@.len(), k);
    if r is Ok {
        let m = texts(r->Ok_0@);
        let name = items@[k]->Ok_0.0@;
        assert(m.contains_key(name) <==> r->Ok_0@.contains_key(name));
    }
}

/// What the first items hold of one of them.
proof fn lemma_items(items: Seq<Result<(String, String), String>>, n: nat, k: int)
    requires
        0 <= k < n <= items.len(),
    ensures
        env_of(items, n) matches Ok(m) ==> (items[k] matches Ok((name, value)) && m.contains_key(
            name@,
        ) && ((forall|j: int| k < j < n ==> (#[trigger] items[j])->Ok_0.0@ != name@) ==> m[name@]
            == value@)),
    decreases n,
{
    if k < n - 1 {
        lemma_items(items, (n - 1) as nat, k);
    }
}

/// An environment file that is not there is reported by its path.
pub proof fn law_missing_file_is_reported(
    path: &str,
    r: Result<NameMap<String>, DaemonError>,
)
    requires
        call_ensures(load_env_file, (path, None), r),
    ensures
        r matches Err(DaemonError::EnvFileNotFound(p)) && p@ == path@,
{
}

} // verus!
