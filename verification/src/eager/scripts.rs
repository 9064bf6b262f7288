//! Running the code of a configuration when it is loaded, service by service.
use vstd::prelude::*;
use vstd::string::*;
use crate::config::evaluate::{
    agree, build_act, ends_with, extends, lemma_extends_agree, lemma_extends_twice, Fault, Run,
};
use crate::config::load::copy_vars;
use crate::config::resolve::Log;
use crate::eager::lua::{
    eager_act, eager_context, lemma_tags_run, process_lua_tags_recursive, tags_run, Vars,
};
use crate::errors::DaemonError;
use crate::lua_eval::{seen_vars, Act, Reply, Scripts, Sight};
use crate::lua_value::{interpolated, lua_value_to_string, LuaValue};
use crate::name_map::NameMap;
use crate::text::{same, split_once, split_once_at};
use crate::value::{
    entry_trees, find_key, lemma_key_index, lemma_tree_parts, lookup, trees, untagged, Tree,
    Yaml,
};

verus! {

/// The first position of a variable, or their number.
pub open spec fn var_index(vars: Vars, name: Seq<char>) -> int
    decreases vars.len(),
{
    if vars.len() == 0 || vars[0].0 == name {
        0
    } else {
        1 + var_index(vars.skip(1), name)
    }
}

/// Variables with `name` set to `value`: in place if it is there, else at the end.
pub open spec fn put_var(vars: Vars, name: Seq<char>, value: Seq<char>) -> Vars {
    let i = var_index(vars, name);
    if i < vars.len() {
        vars.update(i, (name, Sight::Text(value)))
    } else {
        vars.push((name, Sight::Text(value)))
    }
}

proof fn lemma_var_index(vars: Vars, name: Seq<char>, k: int)
    requires
        0 <= k <= vars.len(),
        forall|j: int| 0 <= j < k ==> (#[trigger] vars[j]).0 != name,
        k < vars.len() ==> vars[k].0 == name,
    ensures
        var_index(vars, name) == k,
    decreases vars.len(),
{
    if k > 0 {
        assert(vars[0].0 != name);
        assert forall|j: int| 0 <= j < k - 1 implies (#[trigger] vars.skip(1)[j]).0 != name by {
            assert(vars.skip(1)[j] == vars[j + 1]);
        }
        if k < vars.len() {
            assert(vars.skip(1)[k - 1] == vars[k]);
        }
        lemma_var_index(vars.skip(1), name, k - 1);
    }
}

/// Sets a variable.
fn set_var(vars: &mut NameMap<String>, name: String, value: String)
    ensures
        seen_vars(*final(vars)) == put_var(seen_vars(*old(vars)), name@, value@),
{
    let _ = vars.len();
    let ghost before = *vars;
    let ghost seen = seen_vars(before);
    let ghost k = name@;
    let ghost v = value@;
    proof {
        if before.keys().contains(k) {
            let i = before.keys().index_of(k);
            assert(before.keys()[i] == k);
            assert forall|j: int| 0 <= j < i implies (#[trigger] seen[j]).0 != k by {
                assert(before.keys()[j] != before.keys()[i]);
            }
            lemma_var_index(seen, k, i);
        } else {
            assert forall|j: int| 0 <= j < seen.len() implies (#[trigger] seen[j]).0 != k by {
                assert(before.keys().contains(before.keys()[j]));
            }
            lemma_var_index(seen, k, seen.len() as int);
        }
    }
    vars.insert(name, value);
    assert(seen_vars(*vars) =~= put_var(seen, k, v));
}

/// Variables after others, in order.
pub open spec fn put_vars(vars: Vars, more: Vars, n: nat) -> Vars
    decreases n,
{
    if n == 0 || n > more.len() {
        vars
    } else {
        put_var(
            put_vars(vars, more, (n - 1) as nat),
            more[n - 1].0,
            match more[n - 1].1 {
                Sight::Text(t) => t,
                _ => seq![],
            },
        )
    }
}

/// Variables over others.
pub(crate) fn with_vars(vars: &NameMap<String>, more: &NameMap<String>) -> (r: NameMap<String>)
    ensures
        seen_vars(r) == put_vars(
            seen_vars(*vars),
            seen_vars(*more),
            seen_vars(*more).len(),
        ),
{
    let mut out = copy_vars(vars);
    let n: usize = more.len();
    let mut i: usize = 0;
    while i < n
        invariant
            i <= n,
            n == more.keys().len(),
            more.well_formed(),
            seen_vars(out) == put_vars(seen_vars(*vars), seen_vars(*more), i as nat),
        decreases n - i,
    {
        set_var(&mut out, more.key_at(i).clone(), more.value_at(i).clone());
        i += 1;
    }
    out
}

/// The variables of an answer: the entries of a table.
pub open spec fn table_vars(entries: Seq<(LuaValue, LuaValue)>, n: nat) -> Vars
    decreases n,
{
    if n == 0 || n > entries.len() {
        seq![]
    } else {
        put_var(
            table_vars(entries, (n - 1) as nat),
            interpolated(entries[n - 1].0),
            interpolated(entries[n - 1].1),
        )
    }
}

/// The variables of an answer; a file that cannot be read has none.
pub open spec fn answered_vars(r: Reply) -> Vars {
    match r {
        Reply::Value(LuaValue::Table(entries)) => table_vars(entries@, entries@.len()),
        _ => seq![],
    }
}

/// The variables of an answer.
pub(crate) fn take_vars(answer: Result<LuaValue, String>) -> (r: NameMap<String>)
    ensures
        seen_vars(r) == answered_vars(crate::lua_eval::reply(answer)),
{
    let mut out: NameMap<String> = NameMap::new();
    assert(seen_vars(out) =~= Seq::<(Seq<char>, Sight)>::empty());
    match answer {
        Ok(LuaValue::Table(entries)) => {
            let mut i: usize = 0;
            while i < entries.len()
                invariant
                    i <= entries@.len(),
                    seen_vars(out) == table_vars(entries@, i as nat),
                decreases entries@.len() - i,
            {
                set_var(
                    &mut out,
                    lua_value_to_string(&entries[i].0),
                    lua_value_to_string(&entries[i].1),
                );
                i += 1;
            }
        },
        _ => {},
    }
    out
}

/// The environment after the first `n` entries of a list. What is no text `NAME=value` is left
/// out.
pub open spec fn list_vars(vars: Vars, items: Seq<Tree>, n: nat) -> Vars
    decreases n,
{
    if n == 0 || n > items.len() {
        vars
    } else {
        let before = list_vars(vars, items, (n - 1) as nat);
        match items[n - 1] {
            Tree::Text(s) => match split_once_at(s, '=') {
                Some((name, value)) => put_var(before, name, value),
                None => before,
            },
            _ => before,
        }
    }
}

/// The environment after the entries that a field holds.
pub open spec fn field_vars(vars: Vars, fields: Seq<(Tree, Tree)>) -> Vars {
    match lookup(fields, Tree::Text("environment"@)) {
        Some(Tree::Sequence(items)) => list_vars(vars, items, items.len()),
        _ => vars,
    }
}

/// Sets the variables of the entries that a field holds.
pub(crate) fn add_field_vars(vars: &mut NameMap<String>, fields: &Vec<(Yaml, Yaml)>)
    ensures
        seen_vars(*final(vars)) == field_vars(seen_vars(*old(vars)), entry_trees(fields@)),
{
    broadcast use lemma_tree_parts;

    let ghost all = entry_trees(fields@);
    let ghost start = seen_vars(*vars);
    proof {
        lemma_key_index(all, Tree::Text("environment"@));
    }
    if let Some(k) = find_key(fields, "environment") {
        assert(all[k as int].1 == fields@[k as int].1@);
        if let Yaml::Sequence(items) = &fields[k].1 {
            let ghost list = trees(items@);
            let mut i: usize = 0;
            while i < items.len()
                invariant
                    i <= items@.len(),
                    list == trees(items@),
                    start == seen_vars(*old(vars)),
                    seen_vars(*vars) == list_vars(start, list, i as nat),
                decreases items@.len() - i,
            {
                assert(list[i as int] == items@[i as int]@);
                if let Yaml::String(s) = &items[i] {
                    if let Some((name, value)) = split_once(s.as_str(), '=') {
                        set_var(vars, name, value);
                    }
                }
                i += 1;
            }
        }
    }
}

/// What scripts see of a service: its name, the variables of the system and of its file, and its
/// environment.
#[verifier::ext_equal]
pub struct Surroundings {
    pub name: Option<Seq<char>>,
    pub sys: Vars,
    pub file: Vars,
    pub env: Vars,
}

/// What a script sees, for a hook or outside of hooks.
pub open spec fn seen_act(s: Surroundings, hook: Option<Seq<char>>) -> Act {
    eager_act(s.name, hook, s.sys, s.file, s.env)
}

/// Runs the code of the first `n` hooks; each script sees the name of its hook. A hook whose key
/// is no text is left as it is.
pub open spec fn hook_tags_run(
    hooks: Seq<(Tree, Tree)>,
    n: nat,
    dir: Seq<char>,
    s: Surroundings,
    log: Log,
    from: int,
) -> Run<Seq<(Tree, Tree)>>
    decreases n,
{
    if n == 0 || n > hooks.len() {
        Run { acts: seq![], end: Ok(seq![]) }
    } else {
        let front = hook_tags_run(hooks, (n - 1) as nat, dir, s, log, from);
        match front.end {
            Err(f) => front,
            Ok(done) => match hooks[n - 1].0 {
                Tree::Text(name) => {
                    let r = tags_run(
                        hooks[n - 1].1,
                        dir,
                        seen_act(s, Some(name)),
                        log,
                        from + front.acts.len(),
                    );
                    Run {
                        acts: front.acts + r.acts,
                        end: match r.end {
                            Ok(t) => Ok(done.push((hooks[n - 1].0, t))),
                            Err(f) => Err(f),
                        },
                    }
                },
                _ => Run { acts: front.acts, end: Ok(done.push(hooks[n - 1])) },
            },
        }
    }
}

/// Runs the code of hooks.
pub open spec fn hooks_run(t: Tree, dir: Seq<char>, s: Surroundings, log: Log, from: int) -> Run<
    Tree,
> {
    match t {
        Tree::Mapping(hooks) => {
            let r = hook_tags_run(hooks, hooks.len(), dir, s, log, from);
            Run {
                acts: r.acts,
                end: match r.end {
                    Ok(done) => Ok(Tree::Mapping(done)),
                    Err(f) => Err(f),
                },
            }
        },
        _ => Run { acts: seq![], end: Ok(t) },
    }
}

pub proof fn lemma_hook_tags_run(
    hooks: Seq<(Tree, Tree)>,
    n: nat,
    dir: Seq<char>,
    s: Surroundings,
    a: Log,
    b: Log,
    from: int,
)
    requires
        0 <= from,
        agree(a, b, from + hook_tags_run(hooks, n, dir, s, a, from).acts.len()),
    ensures
        hook_tags_run(hooks, n, dir, s, a, from) == hook_tags_run(hooks, n, dir, s, b, from),
    decreases n,
{
    if n > 0 && n <= hooks.len() {
        lemma_hook_tags_run(hooks, (n - 1) as nat, dir, s, a, b, from);
        let front = hook_tags_run(hooks, (n - 1) as nat, dir, s, a, from);
        if front.end is Ok {
            if let Tree::Text(name) = hooks[n - 1].0 {
                lemma_tags_run(
                    hooks[n - 1].1,
                    dir,
                    seen_act(s, Some(name)),
                    a,
                    b,
                    from + front.acts.len(),
                );
            }
        }
    }
}

proof fn lemma_hook_tags_stop(
    hooks: Seq<(Tree, Tree)>,
    n: nat,
    dir: Seq<char>,
    s: Surroundings,
    log: Log,
    from: int,
)
    requires
        n <= hooks.len(),
        hook_tags_run(hooks, n, dir, s, log, from).end is Err,
    ensures
        hook_tags_run(hooks, hooks.len(), dir, s, log, from) == hook_tags_run(
            hooks,
            n,
            dir,
            s,
            log,
            from,
        ),
    decreases hooks.len() - n,
{
    if n < hooks.len() {
        lemma_hook_tags_stop(hooks, n + 1, dir, s, log, from);
    }
}

/// Runs the code of hooks; each script sees the name of its hook. Without a service the hooks are
/// those of the whole configuration.
pub fn process_hooks_lua<S: Scripts>(
    hooks_value: &Yaml,
    service_name: Option<&str>,
    scripts: &mut S,
    sys_env: &NameMap<String>,
    file_vars: &NameMap<String>,
    env: &NameMap<String>,
    config_dir: &str,
    config_path: &str,
) -> (r: Result<Yaml, DaemonError>)
    ensures
        ({
            let run = hooks_run(
                hooks_value@,
                config_dir@,
                Surroundings {
                    name: crate::eager::lua::name_of(service_name),
                    sys: seen_vars(*sys_env),
                    file: seen_vars(*file_vars),
                    env: seen_vars(*env),
                },
                final(scripts).log(),
                old(scripts).log().len() as int,
            );
            &&& extends(old(scripts).log(), final(scripts).log(), run.acts)
            &&& ends_with(r, config_path@, run.end)
        }),
{
    broadcast use lemma_tree_parts;

    match hooks_value {
        Yaml::Mapping(entries) => {
            let ghost all = entry_trees(entries@);
            let ghost s = Surroundings {
                name: crate::eager::lua::name_of(service_name),
                sys: seen_vars(*sys_env),
                file: seen_vars(*file_vars),
                env: seen_vars(*env),
            };
            let ghost start = scripts.log();
            let ghost from = start.len() as int;
            let mut out: Vec<(Yaml, Yaml)> = Vec::new();
            let mut i: usize = 0;
            assert(entry_trees(out@) == Seq::<(Tree, Tree)>::empty());
            while i < entries.len()
                invariant
                    i <= entries@.len(),
                    all == entry_trees(entries@),
                    hooks_value@ == Tree::Mapping(all),
                    s == (Surroundings {
                        name: crate::eager::lua::name_of(service_name),
                        sys: seen_vars(*sys_env),
                        file: seen_vars(*file_vars),
                        env: seen_vars(*env),
                    }),
                    start == old(scripts).log(),
                    from == start.len(),
                    ({
                        let run = hook_tags_run(
                            all,
                            i as nat,
                            config_dir@,
                            s,
                            scripts.log(),
                            from,
                        );
                        &&& extends(start, scripts.log(), run.acts)
                        &&& run.end == Ok::<Seq<(Tree, Tree)>, Fault>(entry_trees(out@))
                    }),
                decreases entries@.len() - i,
            {
                let ghost before = scripts.log();
                let ghost done = entry_trees(out@);
                let ghost front = hook_tags_run(all, i as nat, config_dir@, s, before, from);
                assert(all[i as int] == (entries@[i as int].0@, entries@[i as int].1@));
                let key = entries[i].0.copy();
                let value = match &entries[i].0 {
                    Yaml::String(name) => {
                        let ctx = eager_context(
                            service_name,
                            Some(name.as_str()),
                            sys_env,
                            file_vars,
                            env,
                        );
                        let r = process_lua_tags_recursive(
                            &entries[i].1,
                            scripts,
                            &ctx,
                            config_dir,
                            config_path,
                        );
                        proof {
                            let now = scripts.log();
                            let run = tags_run(
                                all[i as int].1,
                                config_dir@,
                                seen_act(s, Some(name@)),
                                now,
                                before.len() as int,
                            );
                            lemma_extends_agree(before, now, run.acts);
                            lemma_hook_tags_run(all, i as nat, config_dir@, s, before, now, from);
                            lemma_extends_twice(start, before, now, front.acts, run.acts);
                        }
                        match r {
                            Ok(v) => v,
                            Err(e) => {
                                proof {
                                    lemma_hook_tags_stop(
                                        all,
                                        (i + 1) as nat,
                                        config_dir@,
                                        s,
                                        scripts.log(),
                                        from,
                                    );
                                }
                                return Err(e);
                            },
                        }
                    },
                    _ => entries[i].1.copy(),
                };
                out.push((key, value));
                assert(entry_trees(out@) == done.push((key@, value@)));
                i += 1;
            }
            Ok(Yaml::Mapping(out))
        },
        _ => Ok(hooks_value.copy()),
    }
}

/// The text of a key, or nothing.
pub open spec fn key_text(key: Tree) -> Seq<char> {
    match untagged(key) {
        Tree::Text(s) => s,
        _ => ""@,
    }
}

/// Runs the code of a field of a service. The environment and its file are done already.
pub open spec fn field_run(
    key: Tree,
    t: Tree,
    dir: Seq<char>,
    s: Surroundings,
    log: Log,
    from: int,
) -> Run<Tree> {
    let name = key_text(key);
    if name == "env_file"@ || name == "environment"@ {
        Run { acts: seq![], end: Ok(t) }
    } else if name == "hooks"@ {
        hooks_run(t, dir, s, log, from)
    } else {
        tags_run(t, dir, seen_act(s, None), log, from)
    }
}

/// Runs the code of the first `n` fields of a service.
pub open spec fn fields_run(
    fields: Seq<(Tree, Tree)>,
    n: nat,
    dir: Seq<char>,
    s: Surroundings,
    log: Log,
    from: int,
) -> Run<Seq<(Tree, Tree)>>
    decreases n,
{
    if n == 0 || n > fields.len() {
        Run { acts: seq![], end: Ok(seq![]) }
    } else {
        let front = fields_run(fields, (n - 1) as nat, dir, s, log, from);
        match front.end {
            Err(f) => front,
            Ok(done) => {
                let r = field_run(
                    fields[n - 1].0,
                    fields[n - 1].1,
                    dir,
                    s,
                    log,
                    from + front.acts.len(),
                );
                Run {
                    acts: front.acts + r.acts,
                    end: match r.end {
                        Ok(t) => Ok(done.push((fields[n - 1].0, t))),
                        Err(f) => Err(f),
                    },
                }
            },
        }
    }
}

proof fn lemma_field_run(
    key: Tree,
    t: Tree,
    dir: Seq<char>,
    s: Surroundings,
    a: Log,
    b: Log,
    from: int,
)
    requires
        0 <= from,
        agree(a, b, from + field_run(key, t, dir, s, a, from).acts.len()),
    ensures
        field_run(key, t, dir, s, a, from) == field_run(key, t, dir, s, b, from),
{
    let name = key_text(key);
    if name == "env_file"@ || name == "environment"@ {
    } else if name == "hooks"@ {
        if let Tree::Mapping(hooks) = t {
            lemma_hook_tags_run(hooks, hooks.len(), dir, s, a, b, from);
        }
    } else {
        lemma_tags_run(t, dir, seen_act(s, None), a, b, from);
    }
}

pub proof fn lemma_fields_run(
    fields: Seq<(Tree, Tree)>,
    n: nat,
    dir: Seq<char>,
    s: Surroundings,
    a: Log,
    b: Log,
    from: int,
)
    requires
        0 <= from,
        agree(a, b, from + fields_run(fields, n, dir, s, a, from).acts.len()),
    ensures
        fields_run(fields, n, dir, s, a, from) == fields_run(fields, n, dir, s, b, from),
    decreases n,
{
    if n > 0 && n <= fields.len() {
        lemma_fields_run(fields, (n - 1) as nat, dir, s, a, b, from);
        let front = fields_run(fields, (n - 1) as nat, dir, s, a, from);
        if front.end is Ok {
            lemma_field_run(
                fields[n - 1].0,
                fields[n - 1].1,
                dir,
                s,
                a,
                b,
                from + front.acts.len(),
            );
        }
    }
}

proof fn lemma_fields_stop(
    fields: Seq<(Tree, Tree)>,
    n: nat,
    dir: Seq<char>,
    s: Surroundings,
    log: Log,
    from: int,
)
    requires
        n <= fields.len(),
        fields_run(fields, n, dir, s, log, from).end is Err,
    ensures
        fields_run(fields, fields.len(), dir, s, log, from) == fields_run(
            fields,
            n,
            dir,
            s,
            log,
            from,
        ),
    decreases fields.len() - n,
{
    if n < fields.len() {
        lemma_fields_stop(fields, n + 1, dir, s, log, from);
    }
}

/// Runs the code of the fields of a service.
pub(crate) fn process_fields<S: Scripts>(
    fields: &Vec<(Yaml, Yaml)>,
    name: &str,
    scripts: &mut S,
    sys_env: &NameMap<String>,
    file_vars: &NameMap<String>,
    env: &NameMap<String>,
    config_dir: &str,
    config_path: &str,
) -> (r: Result<Vec<(Yaml, Yaml)>, DaemonError>)
    ensures
        ({
            let run = fields_run(
                entry_trees(fields@),
                fields@.len(),
                config_dir@,
                Surroundings {
                    name: Some(name@),
                    sys: seen_vars(*sys_env),
                    file: seen_vars(*file_vars),
                    env: seen_vars(*env),
                },
                final(scripts).log(),
                old(scripts).log().len() as int,
            );
            &&& extends(old(scripts).log(), final(scripts).log(), run.acts)
            &&& crate::config::document::entries_end(r, config_path@, run.end)
        }),
{
    let ghost all = entry_trees(fields@);
    let ghost s = Surroundings {
        name: Some(name@),
        sys: seen_vars(*sys_env),
        file: seen_vars(*file_vars),
        env: seen_vars(*env),
    };
    let ghost start = scripts.log();
    let ghost from = start.len() as int;
    let ctx = eager_context(Some(name), None, sys_env, file_vars, env);
    let mut out: Vec<(Yaml, Yaml)> = Vec::new();
    let mut i: usize = 0;
    assert(entry_trees(out@) == Seq::<(Tree, Tree)>::empty());
    while i < fields.len()
        invariant
            i <= fields@.len(),
            all == entry_trees(fields@),
            s == (Surroundings {
                name: Some(name@),
                sys: seen_vars(*sys_env),
                file: seen_vars(*file_vars),
                env: seen_vars(*env),
            }),
            build_act(ctx, false) == seen_act(s, None),
            start == old(scripts).log(),
            from == start.len(),
            ({
                let run = fields_run(all, i as nat, config_dir@, s, scripts.log(), from);
                &&& extends(start, scripts.log(), run.acts)
                &&& run.end == Ok::<Seq<(Tree, Tree)>, Fault>(entry_trees(out@))
            }),
        decreases fields@.len() - i,
    {
        let ghost before = scripts.log();
        let ghost done = entry_trees(out@);
        let ghost front = fields_run(all, i as nat, config_dir@, s, before, from);
        assert(all[i as int] == (fields@[i as int].0@, fields@[i as int].1@));
        let key = fields[i].0.copy();
        let text = match fields[i].0.as_str() {
            Some(t) => t,
            None => "",
        };
        let r = if same(text, "env_file") || same(text, "environment") {
            Ok(fields[i].1.copy())
        } else if same(text, "hooks") {
            process_hooks_lua(
                &fields[i].1,
                Some(name),
                scripts,
                sys_env,
                file_vars,
                env,
                config_dir,
                config_path,
            )
        } else {
            process_lua_tags_recursive(&fields[i].1, scripts, &ctx, config_dir, config_path)
        };
        proof {
            let now = scripts.log();
            let run = field_run(
                all[i as int].0,
                all[i as int].1,
                config_dir@,
                s,
                now,
                before.len() as int,
            );
            lemma_extends_agree(before, now, run.acts);
            lemma_fields_run(all, i as nat, config_dir@, s, before, now, from);
            lemma_extends_twice(start, before, now, front.acts, run.acts);
        }
        let value = match r {
            Ok(v) => v,
            Err(e) => {
                proof {
                    lemma_fields_stop(all, (i + 1) as nat, config_dir@, s, scripts.log(), from);
                }
                return Err(e);
            },
        };
        out.push((key, value));
        assert(entry_trees(out@) == done.push((key@, value@)));
        i += 1;
    }
    Ok(out)
}

} // verus!
