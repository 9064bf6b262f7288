//! Reading a configuration: what is computed and checked before the services are known.
use vstd::prelude::*;
use vstd::string::*;
use crate::config::evaluate::{
    agree, build_act, evaluate_value_tree, extends, lemma_extends_agree, lemma_extends_twice,
    lemma_tree_left, lemma_tree_run, reports, tree_left, tree_run, Fault, Run,
};
use crate::config::resolve::Log;
use crate::errors::DaemonError;
use crate::lua_eval::{
    scene, seen_deps, seen_vars, Act, EvalContext, Scripts, ServiceEvalContext, Sight,
};
use crate::name_map::NameMap;
use crate::text::concat;
use crate::value::{
    entry_trees, find_key, lemma_key_index, lemma_tree_parts, lookup, put, Tree, Yaml,
};

verus! {

/// What scripts see while a configuration is read, where there is no service: the environment of
/// the daemon, and the hook that the script belongs to, if there is one.
pub open spec fn general_act(hook: Option<Seq<char>>, vars: Seq<(Seq<char>, Sight)>) -> Act {
    Act::Build {
        scene: seq![
            ("env"@, Sight::Active),
            ("service"@, Sight::Nil),
            (
                "hook"@,
                match hook {
                    Some(name) => Sight::Names(
                        seq![
                            ("name"@, Sight::Text(name)),
                            ("raw_env"@, Sight::Names(vars)),
                            ("env_file"@, Sight::Names(seq![])),
                            ("env"@, Sight::Active),
                        ],
                    ),
                    None => Sight::Nil,
                },
            ),
            ("deps"@, Sight::Names(seq![])),
            ("kepler"@, Sight::Names(seq![("env"@, Sight::Names(vars))])),
        ],
        vars,
        open: false,
    }
}

/// What scripts see while the configuration of a service is read.
pub open spec fn service_act(name: Seq<char>, vars: Seq<(Seq<char>, Sight)>) -> Act {
    Act::Build {
        scene: seq![
            ("env"@, Sight::Active),
            (
                "service"@,
                Sight::Names(
                    seq![
                        ("name"@, Sight::Text(name)),
                        ("raw_env"@, Sight::Names(seq![])),
                        ("env_file"@, Sight::Names(seq![])),
                        ("env"@, Sight::Active),
                    ],
                ),
            ),
            ("hook"@, Sight::Nil),
            ("deps"@, Sight::Names(seq![])),
            ("kepler"@, Sight::Names(seq![("env"@, Sight::Names(vars))])),
        ],
        vars,
        open: false,
    }
}

/// A copy of variables is seen as the variables are.
proof fn lemma_seen_copy(a: NameMap<String>, b: NameMap<String>)
    requires
        cloned(a, b),
        a.well_formed(),
    ensures
        seen_vars(a) == seen_vars(b),
{
    assert forall|i: int| 0 <= i < a.keys().len() implies seen_vars(a)[i] == seen_vars(b)[i] by {
        if a != b {
            assert(cloned(a.values()[i], b.values()[i]));
        }
    }
    assert(seen_vars(a) =~= seen_vars(b));
}

/// Without variables nothing is seen.
proof fn lemma_seen_nothing(m: NameMap<String>, d: NameMap<crate::lua_eval::DepInfo>)
    requires
        m.keys().len() == 0,
        d.keys().len() == 0,
    ensures
        seen_vars(m) == Seq::<(Seq<char>, Sight)>::empty(),
        seen_deps(d) == Seq::<(Seq<char>, Sight)>::empty(),
{
    assert(seen_vars(m) =~= Seq::<(Seq<char>, Sight)>::empty());
    assert(seen_deps(d) =~= Seq::<(Seq<char>, Sight)>::empty());
}

/// A copy of variables.
pub(crate) fn copy_vars(m: &NameMap<String>) -> (r: NameMap<String>)
    ensures
        seen_vars(r) == seen_vars(*m),
{
    let _ = m.len();
    let r = m.clone();
    proof {
        lemma_seen_copy(*m, r);
    }
    r
}

/// The context of scripts that belong to no service.
pub fn general_context(hook: Option<&str>, sys_env: &NameMap<String>) -> (r: EvalContext)
    ensures
        build_act(r, false) == general_act(
            match hook {
                Some(name) => Some(name@),
                None => None,
            },
            seen_vars(*sys_env),
        ),
{
    let part = match hook {
        Some(name) => Some(
            ServiceEvalContext {
                name: name.to_owned(),
                raw_env: copy_vars(sys_env),
                env_file: NameMap::new(),
                env: copy_vars(sys_env),
            },
        ),
        None => None,
    };
    let r = EvalContext {
        service: None,
        hook: part,
        deps: NameMap::new(),
        kepler_env: copy_vars(sys_env),
        env_file: NameMap::new(),
        env: copy_vars(sys_env),
    };
    proof {
        lemma_seen_nothing(r.env_file, r.deps);
        if r.hook is Some {
            lemma_seen_nothing(r.hook->0.env_file, r.deps);
        }
        let a = build_act(r, false);
        let b = general_act(
            match hook {
                Some(name) => Some(name@),
                None => None,
            },
            seen_vars(*sys_env),
        );
        assert(a->scene =~= b->scene);
    }
    r
}

/// The context of scripts that belong to a service.
pub fn service_context(name: &str, sys_env: &NameMap<String>) -> (r: EvalContext)
    ensures
        build_act(r, false) == service_act(name@, seen_vars(*sys_env)),
{
    let r = EvalContext {
        service: Some(
            ServiceEvalContext {
                name: name.to_owned(),
                raw_env: NameMap::new(),
                env_file: NameMap::new(),
                env: copy_vars(sys_env),
            },
        ),
        hook: None,
        deps: NameMap::new(),
        kepler_env: copy_vars(sys_env),
        env_file: NameMap::new(),
        env: NameMap::new(),
    };
    proof {
        lemma_seen_nothing(r.service->0.raw_env, r.deps);
        lemma_seen_nothing(r.service->0.env_file, r.deps);
        let a = build_act(r, false);
        let b = service_act(name@, seen_vars(*sys_env));
        assert(a->scene =~= b->scene);
    }
    r
}

/// Computes a tree, with scripts that see `build`.
pub open spec fn whole_run(t: Tree, path: Seq<char>, build: Act, log: Log, from: int) -> Run<Tree> {
    let r = tree_run(t, path, false, false, build, log, from);
    Run { acts: r.acts, end: r.end }
}

/// The path of a global hook.
pub open spec fn hook_path(name: Seq<char>) -> Seq<char> {
    "kepler.hooks."@ + name
}

/// Computes the first `n` global hooks. Those whose key is no text are left as they are.
pub open spec fn hooks_run(
    hooks: Seq<(Tree, Tree)>,
    n: nat,
    vars: Seq<(Seq<char>, Sight)>,
    log: Log,
    from: int,
) -> Run<Seq<(Tree, Tree)>>
    decreases n,
{
    if n == 0 || n > hooks.len() {
        Run { acts: seq![], end: Ok(seq![]) }
    } else {
        let front = hooks_run(hooks, (n - 1) as nat, vars, log, from);
        match front.end {
            Err(f) => front,
            Ok(done) => match hooks[n - 1].0 {
                Tree::Text(name) => {
                    let r = whole_run(
                        hooks[n - 1].1,
                        hook_path(name),
                        general_act(Some(name), vars),
                        log,
                        from + front.acts.len(),
                    );
                    Run {
                        acts: front.acts + r.acts,
                        end: match r.end {
                            Ok(t) => Ok(done.push((hooks[n - 1].0, t))),
                            Err(f) => Err(f),
                        },
                    }
                },
                _ => Run { acts: front.acts, end: Ok(done.push(hooks[n - 1])) },
            },
        }
    }
}

/// Computes the global hooks.
pub open spec fn global_hooks_run(
    t: Tree,
    vars: Seq<(Seq<char>, Sight)>,
    log: Log,
    from: int,
) -> Run<Tree> {
    match t {
        Tree::Mapping(hooks) => {
            let r = hooks_run(hooks, hooks.len(), vars, log, from);
            Run {
                acts: r.acts,
                end: match r.end {
                    Ok(done) => Ok(Tree::Mapping(done)),
                    Err(f) => Err(f),
                },
            }
        },
        _ => Run { acts: seq![], end: Ok(t) },
    }
}

/// Computes the value of a key of a mapping, if the key is there; `run` computes the value.
pub open spec fn part_run(
    entries: Seq<(Tree, Tree)>,
    key: Seq<char>,
    run: Run<Tree>,
) -> Run<Seq<(Tree, Tree)>> {
    if lookup(entries, Tree::Text(key)) is Some {
        Run {
            acts: run.acts,
            end: match run.end {
                Ok(t) => Ok(put(entries, Tree::Text(key), t)),
                Err(f) => Err(f),
            },
        }
    } else {
        Run { acts: seq![], end: Ok(entries) }
    }
}

/// Computes the log settings.
pub open spec fn log_settings_run(
    entries: Seq<(Tree, Tree)>,
    vars: Seq<(Seq<char>, Sight)>,
    log: Log,
    from: int,
) -> Run<Seq<(Tree, Tree)>> {
    part_run(
        entries,
        "logs"@,
        whole_run(
            lookup(entries, Tree::Text("logs"@))->0,
            "kepler.logs"@,
            general_act(None, vars),
            log,
            from,
        ),
    )
}

/// Computes the log settings and the hooks of the general settings.
pub open spec fn settings_run(
    entries: Seq<(Tree, Tree)>,
    vars: Seq<(Seq<char>, Sight)>,
    log: Log,
    from: int,
) -> Run<Seq<(Tree, Tree)>> {
    let first = log_settings_run(entries, vars, log, from);
    match first.end {
        Err(f) => first,
        Ok(middle) => {
            let second = part_run(
                middle,
                "hooks"@,
                global_hooks_run(
                    lookup(middle, Tree::Text("hooks"@))->0,
                    vars,
                    log,
                    from + first.acts.len(),
                ),
            );
            Run { acts: first.acts + second.acts, end: second.end }
        },
    }
}

/// Computes the general settings of a configuration; the services are left as they are.
pub open spec fn scripts_run(
    t: Tree,
    vars: Seq<(Seq<char>, Sight)>,
    log: Log,
    from: int,
) -> Run<Tree> {
    match t {
        Tree::Mapping(entries) => match lookup(entries, Tree::Text("kepler"@)) {
            Some(Tree::Mapping(settings)) => {
                let r = settings_run(settings, vars, log, from);
                Run {
                    acts: r.acts,
                    end: match r.end {
                        Ok(done) => Ok(
                            Tree::Mapping(put(entries, Tree::Text("kepler"@), Tree::Mapping(done))),
                        ),
                        Err(f) => Err(f),
                    },
                }
            },
            _ => Run { acts: seq![], end: Ok(t) },
        },
        _ => Run { acts: seq![], end: Ok(t) },
    }
}

/// What stands in the place of a tree once it was computed as far as that went.
pub open spec fn whole_left(t: Tree, path: Seq<char>, build: Act, log: Log, from: int) -> Tree {
    tree_left(t, path, false, false, build, log, from)
}

/// What stands in the places of the first `n` global hooks.
pub open spec fn hooks_left(
    hooks: Seq<(Tree, Tree)>,
    n: nat,
    vars: Seq<(Seq<char>, Sight)>,
    log: Log,
    from: int,
) -> Seq<(Tree, Tree)>
    decreases n,
{
    if n == 0 || n > hooks.len() {
        seq![]
    } else {
        let front = hooks_run(hooks, (n - 1) as nat, vars, log, from);
        let (key, value) = hooks[n - 1];
        hooks_left(hooks, (n - 1) as nat, vars, log, from).push(
            match (front.end, key) {
                (Ok(_), Tree::Text(name)) => (
                    key,
                    whole_left(
                        value,
                        hook_path(name),
                        general_act(Some(name), vars),
                        log,
                        from + front.acts.len(),
                    ),
                ),
                _ => (key, value),
            },
        )
    }
}

/// What stands in the place of the global hooks.
pub open spec fn global_hooks_left(
    t: Tree,
    vars: Seq<(Seq<char>, Sight)>,
    log: Log,
    from: int,
) -> Tree {
    match t {
        Tree::Mapping(hooks) => Tree::Mapping(hooks_left(hooks, hooks.len(), vars, log, from)),
        _ => t,
    }
}

/// A mapping with another value for a key, if the key is there.
pub open spec fn part_left(
    entries: Seq<(Tree, Tree)>,
    key: Seq<char>,
    value: Tree,
) -> Seq<(Tree, Tree)> {
    if lookup(entries, Tree::Text(key)) is Some {
        put(entries, Tree::Text(key), value)
    } else {
        entries
    }
}

/// What stands in the place of the general settings.
pub open spec fn settings_left(
    entries: Seq<(Tree, Tree)>,
    vars: Seq<(Seq<char>, Sight)>,
    log: Log,
    from: int,
) -> Seq<(Tree, Tree)> {
    let first = log_settings_run(entries, vars, log, from);
    match first.end {
        Err(_) => part_left(
            entries,
            "logs"@,
            whole_left(
                lookup(entries, Tree::Text("logs"@))->0,
                "kepler.logs"@,
                general_act(None, vars),
                log,
                from,
            ),
        ),
        Ok(middle) => part_left(
            middle,
            "hooks"@,
            global_hooks_left(
                lookup(middle, Tree::Text("hooks"@))->0,
                vars,
                log,
                from + first.acts.len(),
            ),
        ),
    }
}

/// What stands in the place of a configuration once its general settings were computed as far as
/// that went.
pub open spec fn scripts_left(
    t: Tree,
    vars: Seq<(Seq<char>, Sight)>,
    log: Log,
    from: int,
) -> Tree {
    match t {
        Tree::Mapping(entries) => match lookup(entries, Tree::Text("kepler"@)) {
            Some(Tree::Mapping(settings)) => Tree::Mapping(
                put(
                    entries,
                    Tree::Text("kepler"@),
                    Tree::Mapping(settings_left(settings, vars, log, from)),
                ),
            ),
            _ => t,
        },
        _ => t,
    }
}

/// What stands in the places of hooks depends only on the answers that are asked for.
proof fn lemma_hooks_left(
    hooks: Seq<(Tree, Tree)>,
    n: nat,
    vars: Seq<(Seq<char>, Sight)>,
    a: Log,
    b: Log,
    from: int,
)
    requires
        0 <= from,
        agree(a, b, from + hooks_run(hooks, n, vars, a, from).acts.len()),
    ensures
        hooks_left(hooks, n, vars, a, from) == hooks_left(hooks, n, vars, b, from),
    decreases n,
{
    if n > 0 && n <= hooks.len() {
        let m = (n - 1) as nat;
        lemma_hooks_left(hooks, m, vars, a, b, from);
        lemma_hooks_run(hooks, m, vars, a, b, from);
        let front = hooks_run(hooks, m, vars, a, from);
        if front.end is Ok {
            if let Tree::Text(name) = hooks[n - 1].0 {
                lemma_tree_left(
                    hooks[n - 1].1,
                    hook_path(name),
                    false,
                    false,
                    general_act(Some(name), vars),
                    a,
                    b,
                    from + front.acts.len(),
                );
            }
        }
    }
}

/// Computing hooks reads only the answers it asks for.
proof fn lemma_hooks_run(
    hooks: Seq<(Tree, Tree)>,
    n: nat,
    vars: Seq<(Seq<char>, Sight)>,
    a: Log,
    b: Log,
    from: int,
)
    requires
        0 <= from,
        agree(a, b, from + hooks_run(hooks, n, vars, a, from).acts.len()),
    ensures
        hooks_run(hooks, n, vars, a, from) == hooks_run(hooks, n, vars, b, from),
    decreases n,
{
    if n > 0 && n <= hooks.len() {
        lemma_hooks_run(hooks, (n - 1) as nat, vars, a, b, from);
        let front = hooks_run(hooks, (n - 1) as nat, vars, a, from);
        if front.end is Ok {
            if let Tree::Text(name) = hooks[n - 1].0 {
                lemma_tree_run(
                    hooks[n - 1].1,
                    hook_path(name),
                    false,
                    false,
                    general_act(Some(name), vars),
                    a,
                    b,
                    from + front.acts.len(),
                );
            }
        }
    }
}

proof fn lemma_hooks_stop(
    hooks: Seq<(Tree, Tree)>,
    n: nat,
    vars: Seq<(Seq<char>, Sight)>,
    log: Log,
    from: int,
)
    requires
        n <= hooks.len(),
        hooks_run(hooks, n, vars, log, from).end is Err,
    ensures
        hooks_run(hooks, hooks.len(), vars, log, from) == hooks_run(hooks, n, vars, log, from),
    decreases hooks.len() - n,
{
    if n < hooks.len() {
        lemma_hooks_stop(hooks, n + 1, vars, log, from);
    }
}

/// Computes the global hooks, each with its name in what scripts see, and gives what stands in
/// their place.
fn process_global_hooks_lua<S: Scripts>(
    hooks_value: &Yaml,
    scripts: &mut S,
    sys_env: &NameMap<String>,
    config_path: &str,
) -> (r: (Yaml, Result<(), DaemonError>))
    ensures
        ({
            let run = global_hooks_run(
                hooks_value@,
                seen_vars(*sys_env),
                final(scripts).log(),
                old(scripts).log().len() as int,
            );
            &&& extends(old(scripts).log(), final(scripts).log(), run.acts)
            &&& r.0@ == global_hooks_left(
                hooks_value@,
                seen_vars(*sys_env),
                final(scripts).log(),
                old(scripts).log().len() as int,
            )
            &&& match r.1 {
                Ok(_) => run.end == Ok::<Tree, Fault>(r.0@),
                Err(e) => run.end matches Err(f) && reports(e, config_path@, f),
            }
        }),
{
    broadcast use lemma_tree_parts;

    match hooks_value {
        Yaml::Mapping(entries) => {
            let ghost all = entry_trees(entries@);
            let ghost vars = seen_vars(*sys_env);
            let ghost start = scripts.log();
            let ghost from = start.len() as int;
            let mut out: Vec<(Yaml, Yaml)> = Vec::new();
            let mut i: usize = 0;
            assert(entry_trees(out@) == Seq::<(Tree, Tree)>::empty());
            while i < entries.len()
                invariant
                    i <= entries@.len(),
                    all == entry_trees(entries@),
                    hooks_value@ == Tree::Mapping(all),
                    vars == seen_vars(*sys_env),
                    start == old(scripts).log(),
                    from == start.len(),
                    ({
                        let run = hooks_run(all, i as nat, vars, scripts.log(), from);
                        &&& extends(start, scripts.log(), run.acts)
                        &&& run.end == Ok::<Seq<(Tree, Tree)>, Fault>(entry_trees(out@))
                        &&& entry_trees(out@) == hooks_left(
                            all,
                            i as nat,
                            vars,
                            scripts.log(),
                            from,
                        )
                    }),
                decreases entries@.len() - i,
            {
                let ghost before = scripts.log();
                let ghost done = entry_trees(out@);
                let ghost front = hooks_run(all, i as nat, vars, before, from);
                assert(all[i as int] == (entries@[i as int].0@, entries@[i as int].1@));
                let key = entries[i].0.copy();
                let mut value = entries[i].1.copy();
                if let Yaml::String(name) = &entries[i].0 {
                    let ctx = general_context(Some(name.as_str()), sys_env);
                    let path = concat("kepler.hooks.", name.as_str());
                    let r = evaluate_value_tree(
                        &mut value,
                        scripts,
                        &ctx,
                        config_path,
                        path.as_str(),
                    );
                    proof {
                        let now = scripts.log();
                        let run = whole_run(
                            all[i as int].1,
                            hook_path(name@),
                            general_act(Some(name@), vars),
                            now,
                            before.len() as int,
                        );
                        lemma_extends_agree(before, now, run.acts);
                        lemma_hooks_run(all, i as nat, vars, before, now, from);
                        lemma_hooks_left(all, i as nat, vars, before, now, from);
                        lemma_extends_twice(start, before, now, front.acts, run.acts);
                    }
                    if let Err(e) = r {
                        out.push((key, value));
                        assert(entry_trees(out@) == done.push((key@, value@)));
                        i += 1;
                        let ghost log = scripts.log();
                        let ghost whole = hooks_run(all, all.len(), vars, log, from);
                        proof {
                            lemma_hooks_stop(all, i as nat, vars, log, from);
                        }
                        while i < entries.len()
                            invariant
                                i <= entries@.len(),
                                all == entry_trees(entries@),
                                hooks_value@ == Tree::Mapping(all),
                                vars == seen_vars(*sys_env),
                                start == old(scripts).log(),
                                from == start.len(),
                                log == scripts.log(),
                                whole == hooks_run(all, all.len(), vars, log, from),
                                extends(start, log, whole.acts),
                                whole.end matches Err(f) && reports(e, config_path@, f),
                                hooks_run(all, i as nat, vars, log, from).end is Err,
                                entry_trees(out@) == hooks_left(all, i as nat, vars, log, from),
                            decreases entries@.len() - i,
                        {
                            let ghost so_far = entry_trees(out@);
                            let key = entries[i].0.copy();
                            let rest = entries[i].1.copy();
                            assert(all[i as int] == (
                                entries@[i as int].0@,
                                entries@[i as int].1@,
                            ));
                            out.push((key, rest));
                            assert(entry_trees(out@) == so_far.push((key@, rest@)));
                            i += 1;
                        }
                        let left = Yaml::Mapping(out);
                        proof {
                            lemma_tree_parts(left);
                        }
                        return (left, Err(e));
                    }
                }
                out.push((key, value));
                assert(entry_trees(out@) == done.push((key@, value@)));
                i += 1;
            }
            (Yaml::Mapping(out), Ok(()))
        },
        _ => (hooks_value.copy(), Ok(())),
    }
}

/// Gives a key of a mapping, which must be there, a value.
pub(crate) fn put_at(entries: &mut Vec<(Yaml, Yaml)>, i: usize, value: Yaml)
    requires
        i < old(entries)@.len(),
    ensures
        entry_trees(final(entries)@) == entry_trees(old(entries)@).update(
            i as int,
            (entry_trees(old(entries)@)[i as int].0, value@),
        ),
{
    let ghost before = entries@;
    let ghost v = value@;
    let key = entries[i].0.copy();
    entries.set(i, (key, value));
    assert(entry_trees(entries@) =~= entry_trees(before).update(
        i as int,
        (entry_trees(before)[i as int].0, v),
    ));
}

/// Computes the log settings and the hooks of the general settings.
fn process_settings<S: Scripts>(
    settings: &mut Vec<(Yaml, Yaml)>,
    scripts: &mut S,
    sys_env: &NameMap<String>,
    config_path: &str,
) -> (r: Result<(), DaemonError>)
    ensures
        ({
            let run = settings_run(
                entry_trees(old(settings)@),
                seen_vars(*sys_env),
                final(scripts).log(),
                old(scripts).log().len() as int,
            );
            &&& extends(old(scripts).log(), final(scripts).log(), run.acts)
            &&& entry_trees(final(settings)@) == settings_left(
                entry_trees(old(settings)@),
                seen_vars(*sys_env),
                final(scripts).log(),
                old(scripts).log().len() as int,
            )
            &&& match r {
                Ok(_) => run.end == Ok::<Seq<(Tree, Tree)>, Fault>(entry_trees(final(settings)@)),
                Err(e) => run.end matches Err(f) && reports(e, config_path@, f),
            }
        }),
{
    let ghost start = scripts.log();
    let ghost from = start.len() as int;
    let ghost vars = seen_vars(*sys_env);
    let ghost all = entry_trees(settings@);
    proof {
        lemma_key_index(all, Tree::Text("logs"@));
    }
    if let Some(i) = find_key(settings, "logs") {
        let mut value = settings[i].1.copy();
        let ctx = general_context(None, sys_env);
        assert(all[i as int].1 == settings@[i as int].1@);
        let r = evaluate_value_tree(&mut value, scripts, &ctx, config_path, "kepler.logs");
        put_at(settings, i, value);
        if let Err(e) = r {
            return Err(e);
        }
    }
    let ghost middle = scripts.log();
    let ghost first = log_settings_run(all, vars, middle, from);
    let ghost next = entry_trees(settings@);
    assert(first.end == Ok::<Seq<(Tree, Tree)>, Fault>(next));
    assert(extends(start, middle, first.acts));
    proof {
        lemma_key_index(next, Tree::Text("hooks"@));
    }
    if let Some(i) = find_key(settings, "hooks") {
        assert(next[i as int].1 == settings@[i as int].1@);
        let (left, r) = process_global_hooks_lua(&settings[i].1, scripts, sys_env, config_path);
        proof {
            let now = scripts.log();
            let run = global_hooks_run(next[i as int].1, vars, now, middle.len() as int);
            lemma_extends_agree(middle, now, run.acts);
            if lookup(all, Tree::Text("logs"@)) is Some {
                lemma_tree_run(
                    lookup(all, Tree::Text("logs"@))->0,
                    "kepler.logs"@,
                    false,
                    false,
                    general_act(None, vars),
                    middle,
                    now,
                    from,
                );
            }
            assert(log_settings_run(all, vars, now, from) == first);
            lemma_extends_twice(start, middle, now, first.acts, run.acts);
        }
        put_at(settings, i, left);
        r
    } else {
        assert(first.acts + Seq::<Act>::empty() =~= first.acts);
        Ok(())
    }
}

/// Computes the code in the general settings of a configuration: the log settings and the global
/// hooks. The services are left as they are: their code is run when they start. If something
/// fails, what was computed before it is replaced already.
pub fn process_lua_scripts<S: Scripts>(
    value: &mut Yaml,
    scripts: &mut S,
    config_path: &str,
    sys_env: &NameMap<String>,
) -> (r: Result<(), DaemonError>)
    ensures
        ({
            let run = scripts_run(
                old(value)@,
                seen_vars(*sys_env),
                final(scripts).log(),
                old(scripts).log().len() as int,
            );
            &&& extends(old(scripts).log(), final(scripts).log(), run.acts)
            &&& match r {
                Ok(_) => run.end == Ok::<Tree, Fault>(final(value)@),
                Err(e) => run.end matches Err(f) && reports(e, config_path@, f),
            }
            &&& final(value)@ == scripts_left(
                old(value)@,
                seen_vars(*sys_env),
                final(scripts).log(),
                old(scripts).log().len() as int,
            )
        }),
{
    broadcast use lemma_tree_parts;

    let mut copy = value.copy();
    if let Yaml::Mapping(entries) = &mut copy {
        let ghost all = entry_trees(entries@);
        proof {
            lemma_key_index(all, Tree::Text("kepler"@));
        }
        if let Some(i) = find_key(entries, "kepler") {
            assert(all[i as int].1 == entries@[i as int].1@);
            let mut part = entries[i].1.copy();
            let mut settled: Option<Result<(), DaemonError>> = None;
            if let Yaml::Mapping(settings) = &mut part {
                settled = Some(process_settings(settings, scripts, sys_env, config_path));
            }
            if let Some(r) = settled {
                put_at(entries, i, part);
                *value = copy;
                return r;
            }
        }
    }
    Ok(())
}

} // verus!
