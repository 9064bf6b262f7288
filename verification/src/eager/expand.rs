//! Filling in variables the way a shell does.
use vstd::prelude::*;
use vstd::string::*;
use crate::env::{env_entries, read_from, texts};
use crate::name_map::NameMap;
use crate::text::{
    chars_of, find, find_from, lemma_find_from, opt_view, split_once, split_once_at, stands_at,
    substring, views,
};

verus! {

/// The text that `shellexpand::env_with_context` makes of a text and variables.
pub uninterp spec fn expanded(s: Seq<char>, vars: Map<Seq<char>, Seq<char>>) -> Seq<char>;

/// A text with its variables filled in, by `shellexpand::env_with_context`. The claim is that
/// the result depends on the text and the variables alone, and that a text without a dollar sign
/// stays as it is.
#[verifier::external_body]
pub(crate) fn expand_text(s: &str, vars: &NameMap<String>) -> (r: String)
    ensures
        r@ == expanded(s@, texts(vars@)),
        !s@.contains('$') ==> r@ == s@,
{
    shellexpand::env_with_context(s, |v| -> Result<Option<&String>, ()> { Ok(vars.get(v)) })
        .map(|t| t.into_owned())
        .unwrap_or_else(|_| s.to_owned())
}

/// What a name in braces stands for: `NAME:+text` for the text if the variable is there and not
/// empty, and else for nothing; another name for its variable.
pub open spec fn value_for(vars: Map<Seq<char>, Seq<char>>, name: Seq<char>) -> Option<Seq<char>> {
    let i = find_from(name, ":+"@, 0);
    if i <= name.len() {
        let key = name.take(i);
        Some(
            if vars.contains_key(key) && vars[key].len() > 0 {
                name.skip(i + 2)
            } else {
                seq![]
            },
        )
    } else if vars.contains_key(name) {
        Some(vars[name])
    } else {
        None
    }
}

/// What a name in braces stands for.
pub fn look_up(vars: &NameMap<String>, name: &str) -> (r: Option<String>)
    ensures
        opt_view(r) == value_for(texts(vars@), name@),
{
    let chars = chars_of(name);
    let mark = chars_of(":+");
    let n: usize = chars.len();
    proof {
        reveal_strlit(":+");
        lemma_find_from(name@, ":+"@, 0);
    }
    match find(&chars, &mark, 0) {
        Some(i) => {
            assert(stands_at(name@, ":+"@, i as int));
            let key = substring(&chars, 0, i);
            let rest = substring(&chars, i + 2, n);
            assert(key@ =~= name@.take(i as int));
            assert(rest@ =~= name@.skip(i + 2));
            match vars.get(key.as_str()) {
                Some(v) => if v.as_str().is_empty() {
                    assert(v@ =~= Seq::<char>::empty());
                    Some(String::new())
                } else {
                    Some(rest)
                },
                None => Some(String::new()),
            }
        },
        None => match vars.get(name) {
            Some(v) => Some(v.clone()),
            None => None,
        },
    }
}

/// The text that `shellexpand::full_with_context` makes of a text and variables, where names stand
/// for what `value_for` says, and the home directory is the variable `HOME`.
pub uninterp spec fn filled(s: Seq<char>, vars: Map<Seq<char>, Seq<char>>) -> Seq<char>;

/// A text with its variables and the tilde at its beginning filled in, by
/// `shellexpand::full_with_context`. The claim is that the result depends on the text and the
/// variables alone, and that a text without a dollar sign and without a tilde at its beginning
/// stays as it is.
#[verifier::external_body]
pub(crate) fn fill_text(s: &str, vars: &NameMap<String>) -> (r: String)
    ensures
        r@ == filled(s@, texts(vars@)),
        !s@.contains('$') && !(s@.len() > 0 && s@[0] == '~') ==> r@ == s@,
{
    shellexpand::full_with_context(
        s,
        || vars.get("HOME"),
        |v| -> Result<Option<String>, ()> { Ok(look_up(vars, v)) },
    )
        .map(|t| t.into_owned())
        .unwrap_or_else(|_| s.to_owned())
}

/// An optional text with its variables filled in.
pub open spec fn expanded_opt(s: Option<Seq<char>>, vars: Map<Seq<char>, Seq<char>>) -> Option<
    Seq<char>,
> {
    match s {
        Some(t) => Some(filled(t, vars)),
        None => None,
    }
}

/// Texts with their variables filled in.
pub open spec fn expanded_all(list: Seq<Seq<char>>, vars: Map<Seq<char>, Seq<char>>) -> Seq<
    Seq<char>,
> {
    list.map_values(|s: Seq<char>| filled(s, vars))
}

/// Fills in the variables of an optional text.
pub fn expand_opt(text: &mut Option<String>, vars: &NameMap<String>)
    ensures
        opt_view(*final(text)) == expanded_opt(opt_view(*old(text)), texts(vars@)),
{
    if let Some(t) = text {
        *t = fill_text(t.as_str(), vars);
    }
}

/// Fills in the variables of texts.
pub fn expand_all(list: &mut Vec<String>, vars: &NameMap<String>)
    ensures
        views(final(list)@) == expanded_all(views(old(list)@), texts(vars@)),
{
    let ghost was = views(list@);
    let ghost all = expanded_all(was, texts(vars@));
    let mut i: usize = 0;
    while i < list.len()
        invariant
            i <= list@.len(),
            list@.len() == was.len(),
            was == views(old(list)@),
            all == expanded_all(was, texts(vars@)),
            forall|j: int| 0 <= j < i ==> (#[trigger] list@[j])@ == all[j],
            forall|j: int| i <= j < was.len() ==> (#[trigger] list@[j])@ == was[j],
        decreases list@.len() - i,
    {
        let t = fill_text(list[i].as_str(), vars);
        list.set(i, t);
        i += 1;
    }
    assert(views(list@) =~= all);
}

/// Entries with their variables filled in, one after the other, and the variables after them:
/// each entry `NAME=value` is a variable for the later entries.
pub open spec fn expanded_entries(
    list: Seq<Seq<char>>,
    n: nat,
    vars: Map<Seq<char>, Seq<char>>,
) -> (Seq<Seq<char>>, Map<Seq<char>, Seq<char>>)
    decreases n,
{
    if n == 0 || n > list.len() {
        (seq![], vars)
    } else {
        let (done, now) = expanded_entries(list, (n - 1) as nat, vars);
        let text = filled(list[n - 1], now);
        (
            done.push(text),
            match split_once_at(text, '=') {
                Some((name, value)) => now.insert(name, value),
                None => now,
            },
        )
    }
}

/// Fills in the variables of entries, one after the other.
pub fn expand_entries(list: &mut Vec<String>, vars: &mut NameMap<String>)
    ensures
        ({
            let r = expanded_entries(views(old(list)@), old(list)@.len(), texts(old(vars)@));
            &&& views(final(list)@) == r.0
            &&& texts(final(vars)@) == r.1
        }),
{
    let ghost was = views(list@);
    let ghost start = texts(vars@);
    let mut i: usize = 0;
    assert(list@.take(0) =~= Seq::<String>::empty());
    assert(views(list@.take(0)) =~= Seq::<Seq<char>>::empty());
    while i < list.len()
        invariant
            i <= list@.len(),
            list@.len() == was.len(),
            was == views(old(list)@),
            start == texts(old(vars)@),
            views(list@.take(i as int)) == expanded_entries(was, i as nat, start).0,
            texts(vars@) == expanded_entries(was, i as nat, start).1,
            forall|j: int| i <= j < was.len() ==> (#[trigger] list@[j])@ == was[j],
        decreases list@.len() - i,
    {
        let ghost before = list@;
        let text = fill_text(list[i].as_str(), vars);
        if let Some((name, value)) = split_once(text.as_str(), '=') {
            let ghost k = name@;
            let ghost v = value@;
            let ghost old_vars = texts(vars@);
            vars.insert(name, value);
            assert(texts(vars@) =~= old_vars.insert(k, v));
        }
        let ghost t = text@;
        list.set(i, text);
        assert(views(list@.take(i + 1)) =~= views(before.take(i as int)).push(t));
        i += 1;
    }
    assert(list@.take(i as int) =~= list@);
}

/// Variables over others: those of `upper` count first.
pub fn overlay(lower: &NameMap<String>, upper: &NameMap<String>) -> (r: NameMap<String>)
    ensures
        texts(r@) == texts(lower@).union_prefer_right(texts(upper@)),
{
    let mut out: NameMap<String> = NameMap::new();
    add_vars(&mut out, lower);
    let ghost middle = texts(out@);
    assert(middle =~= texts(lower@));
    add_vars(&mut out, upper);
    assert(texts(out@) =~= texts(lower@).union_prefer_right(texts(upper@)));
    out
}

/// Adds variables to others; they replace those of the same name.
pub fn add_vars(vars: &mut NameMap<String>, more: &NameMap<String>)
    ensures
        texts(final(vars)@) == texts(old(vars)@).union_prefer_right(texts(more@)),
{
    let ghost was = texts(vars@);
    let n: usize = more.len();
    let mut i: usize = 0;
    let ghost mut seen: Map<Seq<char>, Seq<char>> = Map::empty();
    assert(was.union_prefer_right(seen) =~= was);
    while i < n
        invariant
            i <= n,
            n == more.keys().len(),
            more.well_formed(),
            was == texts(old(vars)@),
            forall|k: Seq<char>|
                seen.contains_key(k) <==> exists|j: int| 0 <= j < i && more.keys()[j] == k,
            forall|j: int| 0 <= j < i ==> seen[#[trigger] more.keys()[j]] == more.values()[j]@,
            texts(vars@) == was.union_prefer_right(seen),
        decreases n - i,
    {
        let ghost before = vars@;
        let ghost seen0 = seen;
        let ghost k = more.keys()[i as int];
        let ghost v = more.values()[i as int]@;
        vars.insert(more.key_at(i).clone(), more.value_at(i).clone());
        proof {
            seen = seen.insert(k, v);
            assert(texts(vars@) =~= texts(before).insert(k, v));
            assert(texts(vars@) =~= was.union_prefer_right(seen));
            assert forall|x: Seq<char>|
                seen.contains_key(x) <==> exists|j: int|
                    0 <= j < i + 1 && more.keys()[j] == x by {
                if x == k {
                    assert(more.keys()[i as int] == x);
                }
                if seen0.contains_key(x) {
                    let j = choose|j: int| 0 <= j < i && more.keys()[j] == x;
                    assert(0 <= j < i + 1 && more.keys()[j] == x);
                }
            }
        }
        i += 1;
    }
    proof {
        assert(seen =~= texts(more@)) by {
            assert forall|x: Seq<char>| seen.contains_key(x) implies texts(more@).contains_key(x)
                && seen[x] == texts(more@)[x] by {
                let j = choose|j: int| 0 <= j < i && more.keys()[j] == x;
                assert(more.keys().index_of(x) == j);
            }
        }
    }
}

/// The variables of the first `n` items of an environment file; those that cannot be read are
/// left out.
pub open spec fn readable_env(items: Seq<Result<(String, String), String>>, n: nat) -> Map<
    Seq<char>,
    Seq<char>,
>
    decreases n,
{
    if n == 0 || n > items.len() {
        Map::empty()
    } else {
        let before = readable_env(items, (n - 1) as nat);
        match items[n - 1] {
            Ok((name, value)) => before.insert(name@, value@),
            Err(_) => before,
        }
    }
}

/// The variables of the items of an environment file.
pub fn collect_readable(items: &Vec<Result<(String, String), String>>) -> (r: NameMap<String>)
    ensures
        texts(r@) == readable_env(items@, items@.len()),
        r.well_formed(),
{
    let mut env: NameMap<String> = NameMap::new();
    let mut i: usize = 0;
    assert(texts(env@) =~= Map::<Seq<char>, Seq<char>>::empty());
    while i < items.len()
        invariant
            i <= items@.len(),
            texts(env@) == readable_env(items@, i as nat),
            env.well_formed(),
        decreases items@.len() - i,
    {
        let ghost before = texts(env@);
        match &items[i] {
            Ok(pair) => {
                env.insert(pair.0.clone(), pair.1.clone());
                assert(texts(env@) =~= before.insert(pair.0@, pair.1@));
            },
            Err(_) => {},
        }
        i += 1;
    }
    env
}

/// The variables of an environment file, given its contents. Without contents there are none, and
/// what cannot be read is left out.
pub fn load_env_file(contents: Option<&Vec<u8>>) -> (r: NameMap<String>)
    ensures
        r.well_formed(),
        match contents {
            None => texts(r@) == Map::<Seq<char>, Seq<char>>::empty(),
            Some(data) => exists|items: Seq<Result<(String, String), String>>|
                texts(r@) == #[trigger] readable_env(items, items.len()) && read_from(items, data@),
        },
{
    match contents {
        None => {
            let r: NameMap<String> = NameMap::new();
            assert(texts(r@) =~= Map::<Seq<char>, Seq<char>>::empty());
            r
        },
        Some(data) => {
            let items = env_entries(data);
            let r = collect_readable(&items);
            assert(texts(r@) == readable_env(items@, items@.len()));
            r
        },
    }
}

/// A text with its variables filled in, and with the home directory for a tilde at its beginning.
/// `${NAME:-text}` and `${NAME:+text}` are understood.
pub fn expand_value(s: &str, vars: &NameMap<String>) -> (r: String)
    ensures
        r@ == filled(s@, texts(vars@)),
        !s@.contains('$') && !(s@.len() > 0 && s@[0] == '~') ==> r@ == s@,
{
    fill_text(s, vars)
}

/// A text with its variables filled in: those of `context`, and else those of the system. A text
/// without a dollar sign stays as it is.
pub fn expand_with_context(
    s: &str,
    context: &NameMap<String>,
    sys_env: &NameMap<String>,
) -> (r: String)
    ensures
        r@ == expanded(s@, texts(sys_env@).union_prefer_right(texts(context@))),
        !s@.contains('$') ==> r@ == s@,
{
    let vars = overlay(sys_env, context);
    expand_text(s, &vars)
}

} // verus!
